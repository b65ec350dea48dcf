//! Decoding of Python source files: a UTF-8 byte-order mark, PEP 263
//! encoding declarations, and the UTF-8, ASCII and Latin-1 codecs.
use vstd::prelude::*;
use vstd::utf8::{decode_utf8, valid_utf8};
use crate::text::{decimal, decimal_chars, first_from, from_chars, push_str, res_view, to_chars};

verus! {

broadcast use vstd::string::group_string_axioms;

// ---------------------------------------------------------------------------
// Specifications
// ---------------------------------------------------------------------------

/// What std's `Utf8Error` reports for bytes that are not valid UTF-8.
pub uninterp spec fn utf8_error_text(bytes: Seq<u8>) -> Seq<char>;

/// ASCII lower-casing of a byte.
pub open spec fn lower_byte(b: u8) -> u8 {
    if 0x41 <= b && b <= 0x5a {
        (b + 32) as u8
    } else {
        b
    }
}

/// ASCII lower-casing of bytes.
pub open spec fn lower_bytes(s: Seq<u8>) -> Seq<u8> {
    s.map_values(|b: u8| lower_byte(b))
}

/// Index predicate: `s[k]` is `b`.
pub open spec fn byte_is(s: Seq<u8>, b: u8) -> spec_fn(int) -> bool {
    |k: int| s[k] == b
}

/// Index predicate: `s[k]` is not a blank.
pub open spec fn not_blank_at(s: Seq<u8>) -> spec_fn(int) -> bool {
    |k: int| !is_blank(s[k])
}

/// Index predicate: `s[k]` cannot be in an encoding name.
pub open spec fn not_name_at(s: Seq<u8>) -> spec_fn(int) -> bool {
    |k: int| !is_name_byte(s[k])
}

/// Index predicate: the word `coding` starts at `k`.
pub open spec fn coding_pred(s: Seq<u8>) -> spec_fn(int) -> bool {
    |k: int| coding_at(s, k)
}

/// Index predicate: `s[k]` is not indentation.
pub open spec fn not_indent_at(s: Seq<u8>) -> spec_fn(int) -> bool {
    |k: int| is_not_indent(s[k])
}

/// Index predicate: `s[k]` is not ASCII.
pub open spec fn non_ascii_at(s: Seq<u8>) -> spec_fn(int) -> bool {
    |k: int| s[k] > 0x7fu8
}

/// The first index at which `b` occurs in `s`.
pub open spec fn find_byte(s: Seq<u8>, b: u8) -> Option<int> {
    first_from(s.len() as int, 0, byte_is(s, b))
}

/// Whether the word `coding` starts at index `k` of `s`.
pub open spec fn coding_at(s: Seq<u8>, k: int) -> bool {
    &&& s[k] == 0x63u8
    &&& s[k + 1] == 0x6fu8
    &&& s[k + 2] == 0x64u8
    &&& s[k + 3] == 0x69u8
    &&& s[k + 4] == 0x6eu8
    &&& s[k + 5] == 0x67u8
}

/// Space or tab.
pub open spec fn is_blank(b: u8) -> bool {
    b == 0x20u8 || b == 0x09u8
}

/// A byte that may appear in an encoding name (after lower-casing).
pub open spec fn is_name_byte(b: u8) -> bool {
    ||| (0x61u8 <= b && b <= 0x7au8)
    ||| (0x30u8 <= b && b <= 0x39u8)
    ||| b == 0x2du8
    ||| b == 0x5fu8
    ||| b == 0x2eu8
}

/// The first index at or after `i` whose byte is not a blank.
pub open spec fn skip_blanks(s: Seq<u8>, i: int) -> int {
    match first_from(s.len() as int, i, not_blank_at(s)) {
        Some(j) => j,
        None => if i <= s.len() {
            s.len() as int
        } else {
            i
        },
    }
}

/// The first index at or after `i` whose byte cannot be in an encoding name.
pub open spec fn skip_name(s: Seq<u8>, i: int) -> int {
    match first_from(s.len() as int, i, not_name_at(s)) {
        Some(j) => j,
        None => if i <= s.len() {
            s.len() as int
        } else {
            i
        },
    }
}

/// Where the comment of a line starts when the line is a comment: the `#`
/// that only spaces, tabs and form feeds precede.
pub open spec fn comment_start(line: Seq<u8>) -> Option<int> {
    match first_from(line.len() as int, 0, not_indent_at(line)) {
        Some(c) => if line[c] == 0x23u8 {
            Some(c)
        } else {
            None
        },
        None => None,
    }
}

/// The encoding that a PEP 263 declaration in one line names: the line is
/// a comment, and in it come the word `coding` (any case), optional
/// blanks, `:` or `=`, optional blanks, then a name of letters, digits,
/// `-`, `_` and `.`. The name keeps the case it has in the line.
pub open spec fn encoding_in_line(line: Seq<u8>) -> Option<Seq<u8>> {
    match comment_start(line) {
        None => None,
        Some(c) => {
            let lower = lower_bytes(line.skip(c));
            match first_from(lower.len() - 5, 0, coding_pred(lower)) {
                None => None,
                Some(p) => {
                    let i1 = skip_blanks(lower, p + 6);
                    if i1 < lower.len() && (lower[i1] == 0x3au8 || lower[i1] == 0x3du8) {
                        let start = skip_blanks(lower, i1 + 1);
                        let end = skip_name(lower, start);
                        if start == end {
                            None
                        } else {
                            Some(line.subrange(c + start, c + end))
                        }
                    } else {
                        None
                    }
                },
            }
        },
    }
}

/// Whether a byte is neither space, tab nor form feed.
pub open spec fn is_not_indent(b: u8) -> bool {
    !(b == 0x20u8 || b == 0x09u8 || b == 0x0cu8)
}

/// The encoding declared in the first two lines of a source (PEP 263).
/// The second line counts only when the first is blank or a comment.
pub open spec fn source_encoding(bytes: Seq<u8>) -> Option<Seq<u8>> {
    let first_end = match find_byte(bytes, 0x0au8) {
        Some(i) => i,
        None => bytes.len() as int,
    };
    let first_line = bytes.take(first_end);
    match encoding_in_line(first_line) {
        Some(e) => Some(e),
        None => {
            let lead = first_from(first_line.len() as int, 0, not_indent_at(first_line));
            let comment_or_blank = match lead {
                None => true,
                Some(k) => first_line[k] == 0x23u8 || first_line[k] == 0x0du8,
            };
            if !comment_or_blank || first_end == bytes.len() {
                None
            } else {
                let rest = bytes.skip(first_end + 1);
                let second_end = match find_byte(rest, 0x0au8) {
                    Some(i) => i,
                    None => rest.len() as int,
                };
                encoding_in_line(rest.take(second_end))
            }
        },
    }
}

/// Whether bytes start with the UTF-8 byte-order mark.
pub open spec fn has_bom(bytes: Seq<u8>) -> bool {
    bytes.len() >= 3 && bytes[0] == 0xefu8 && bytes[1] == 0xbbu8 && bytes[2] == 0xbfu8
}

/// Each byte as the character with that code (Latin-1).
pub open spec fn latin1(bytes: Seq<u8>) -> Seq<char> {
    bytes.map_values(|b: u8| b as char)
}

/// The encoding name as characters.
pub open spec fn name_chars(name: Seq<u8>) -> Seq<char> {
    latin1(name)
}

/// An encoding name lower-cased with `_` turned into `-`.
pub open spec fn normalized_encoding(name: Seq<u8>) -> Seq<u8> {
    lower_bytes(name).map_values(|b: u8| if b == 0x5fu8 { 0x2du8 } else { b })
}

/// The spellings of UTF-8 that are accepted.
pub open spec fn is_utf8_name(n: Seq<u8>) -> bool {
    n == seq![0x75u8, 0x74u8, 0x66u8, 0x2du8, 0x38u8]
        || n == seq![0x75u8, 0x74u8, 0x66u8, 0x38u8]
        || n == seq![0x75u8, 0x74u8, 0x66u8, 0x2du8, 0x38u8, 0x2du8, 0x73u8, 0x69u8, 0x67u8]
}

/// The spellings of ASCII that are accepted.
pub open spec fn is_ascii_name(n: Seq<u8>) -> bool {
    n == seq![0x61u8, 0x73u8, 0x63u8, 0x69u8, 0x69u8]
        || n == seq![0x75u8, 0x73u8, 0x2du8, 0x61u8, 0x73u8, 0x63u8, 0x69u8, 0x69u8]
}

/// The spellings of Latin-1 that are accepted.
pub open spec fn is_latin1_name(n: Seq<u8>) -> bool {
    n == seq![0x6cu8, 0x61u8, 0x74u8, 0x69u8, 0x6eu8, 0x2du8, 0x31u8]
        || n == seq![0x6cu8, 0x61u8, 0x74u8, 0x69u8, 0x6eu8, 0x31u8]
        || n == seq![0x69u8, 0x73u8, 0x6fu8, 0x2du8, 0x38u8, 0x38u8, 0x35u8, 0x39u8, 0x2du8, 0x31u8]
        || n == seq![0x69u8, 0x73u8, 0x6fu8, 0x38u8, 0x38u8, 0x35u8, 0x39u8, 0x2du8, 0x31u8]
}

/// UTF-8 spelled out as bytes.
pub open spec fn utf8_bytes() -> Seq<u8> {
    seq![0x75u8, 0x74u8, 0x66u8, 0x2du8, 0x38u8]
}

/// The text of a Python source file, or why it cannot be decoded.
pub open spec fn decoded_source(bytes: Seq<u8>, path: Seq<char>) -> Result<Seq<char>, Seq<char>> {
    let bom = has_bom(bytes);
    let source = if bom {
        bytes.skip(3)
    } else {
        bytes
    };
    let encoding = match source_encoding(source) {
        Some(e) => e,
        None => utf8_bytes(),
    };
    let n = normalized_encoding(encoding);
    if bom && !is_utf8_name(n) {
        Err(
            "encoding problem in "@ + path + ": UTF-8 BOM conflicts with "@ + name_chars(encoding),
        )
    } else if is_utf8_name(n) {
        if valid_utf8(source) {
            Ok(decode_utf8(source))
        } else {
            Err("decode "@ + path + " as UTF-8: "@ + utf8_error_text(source))
        }
    } else if is_ascii_name(n) {
        match first_from(source.len() as int, 0, non_ascii_at(source)) {
            Some(i) => Err(
                "decode "@ + path + " as ASCII: non-ASCII byte at offset "@ + decimal(i as nat),
            ),
            None => Ok(latin1(source)),
        }
    } else if is_latin1_name(n) {
        Ok(latin1(source))
    } else {
        Err("unsupported source encoding \""@ + name_chars(encoding) + "\" in "@ + path)
    }
}

/// Whether a source declares (without a byte-order mark) a codec other
/// than UTF-8, ASCII and Latin-1: such a module is left to the interpreter.
pub open spec fn unsupported_codec(bytes: Seq<u8>) -> bool {
    !has_bom(bytes) && match source_encoding(bytes) {
        Some(e) => {
            let n = normalized_encoding(e);
            !is_utf8_name(n) && !is_ascii_name(n) && !is_latin1_name(n)
        },
        None => false,
    }
}

/// ISO-8859-1 is Latin-1: a source (without a byte-order mark) whose
/// declaration names `iso-8859-1` or `iso8859-1`, in any case and with `_`
/// for `-`, decodes byte for byte as Latin-1, just as one declaring
/// `latin-1` or `latin1`, and is never left to the interpreter.
pub proof fn lemma_latin1_declarations(bytes: Seq<u8>, path: Seq<char>)
    requires
        !has_bom(bytes),
        source_encoding(bytes) matches Some(e) && {
            let n = normalized_encoding(e);
            ||| n == seq![0x69u8, 0x73u8, 0x6fu8, 0x2du8, 0x38u8, 0x38u8, 0x35u8, 0x39u8, 0x2du8, 0x31u8]
            ||| n == seq![0x69u8, 0x73u8, 0x6fu8, 0x38u8, 0x38u8, 0x35u8, 0x39u8, 0x2du8, 0x31u8]
            ||| n == seq![0x6cu8, 0x61u8, 0x74u8, 0x69u8, 0x6eu8, 0x2du8, 0x31u8]
            ||| n == seq![0x6cu8, 0x61u8, 0x74u8, 0x69u8, 0x6eu8, 0x31u8]
        },
    ensures
        decoded_source(bytes, path) == Ok::<Seq<char>, Seq<char>>(bytes.map_values(|b: u8| b as char)),
        !unsupported_codec(bytes),
{
    let n = normalized_encoding(source_encoding(bytes)->0);
    assert(!is_utf8_name(n) && !is_ascii_name(n)) by {
        if n.len() == 10 || n.len() == 9 {
            assert(n[0] == 0x69u8);
        } else {
            assert(n[0] == 0x6cu8);
        }
    }
    assert(latin1(bytes) =~= bytes.map_values(|b: u8| b as char));
}

/// The view of an optional byte vector.
pub open spec fn opt_bytes(r: Option<Vec<u8>>) -> Option<Seq<u8>> {
    match r {
        Some(v) => Some(v@),
        None => None,
    }
}

// ---------------------------------------------------------------------------
// Executable functions
// ---------------------------------------------------------------------------

/// `std::str::from_utf8`, with the error rendered by its `Display`.
/// Claimed: success exactly on valid UTF-8, with the decoded characters;
/// otherwise the error text, a function of the bytes alone.
#[verifier::external_body]
fn utf8_decode(bytes: &[u8]) -> (r: Result<String, String>)
    ensures
        match r {
            Ok(s) => valid_utf8(bytes@) && s@ == decode_utf8(bytes@),
            Err(e) => !valid_utf8(bytes@) && e@ == utf8_error_text(bytes@),
        },
{
    match std::str::from_utf8(bytes) {
        Ok(s) => Ok(s.to_string()),
        Err(err) => Err(err.to_string()),
    }
}

fn find_byte_from(s: &[u8], b: u8) -> (r: usize)
    ensures
        r <= s@.len(),
        find_byte(s@, b) == (if r < s@.len() {
            Some(r as int)
        } else {
            None
        }),
{
    let mut i: usize = 0;
    while i < s.len() && s[i] != b
        invariant
            i <= s@.len(),
            find_byte(s@, b) == first_from(s@.len() as int, i as int, byte_is(s@, b)),
        decreases s@.len() - i,
    {
        i += 1;
    }
    i
}

fn skip_blanks_from(s: &[u8], i: usize) -> (r: usize)
    requires
        i <= s@.len(),
    ensures
        r == skip_blanks(s@, i as int),
        i <= r <= s@.len(),
{
    let mut j = i;
    while j < s.len() && (s[j] == 0x20u8 || s[j] == 0x09u8)
        invariant
            i <= j <= s@.len(),
            first_from(s@.len() as int, i as int, not_blank_at(s@)) == first_from(
                s@.len() as int,
                j as int,
                not_blank_at(s@),
            ),
        decreases s@.len() - j,
    {
        j += 1;
    }
    j
}

fn skip_name_from(s: &[u8], i: usize) -> (r: usize)
    requires
        i <= s@.len(),
    ensures
        r == skip_name(s@, i as int),
        i <= r <= s@.len(),
{
    let mut j = i;
    while j < s.len() && ((0x61u8 <= s[j] && s[j] <= 0x7au8) || (0x30u8 <= s[j] && s[j] <= 0x39u8)
        || s[j] == 0x2du8 || s[j] == 0x5fu8 || s[j] == 0x2eu8)
        invariant
            i <= j <= s@.len(),
            first_from(s@.len() as int, i as int, not_name_at(s@)) == first_from(
                s@.len() as int,
                j as int,
                not_name_at(s@),
            ),
        decreases s@.len() - j,
    {
        j += 1;
    }
    j
}

fn slice_to_vec(s: &[u8], from: usize, to: usize) -> (r: Vec<u8>)
    requires
        from <= to <= s@.len(),
    ensures
        r@ == s@.subrange(from as int, to as int),
{
    let mut out: Vec<u8> = Vec::new();
    let mut k = from;
    while k < to
        invariant
            from <= k <= to <= s@.len(),
            out@ == s@.subrange(from as int, k as int),
        decreases to - k,
    {
        out.push(s[k]);
        k += 1;
        assert(out@ =~= s@.subrange(from as int, k as int));
    }
    out
}

/// The encoding that a PEP 263 declaration in `line` names, with the case
/// it has in the line.
pub fn find_encoding_in_line(line: &[u8]) -> (r: Option<Vec<u8>>)
    ensures
        opt_bytes(r) == encoding_in_line(line@),
{
    let mut c: usize = 0;
    while c < line.len() && (line[c] == 0x20u8 || line[c] == 0x09u8 || line[c] == 0x0cu8)
        invariant
            c <= line@.len(),
            first_from(line@.len() as int, 0, not_indent_at(line@)) == first_from(
                line@.len() as int,
                c as int,
                not_indent_at(line@),
            ),
        decreases line@.len() - c,
    {
        c += 1;
    }
    if c == line.len() || line[c] != 0x23u8 {
        return None;
    }
    let mut lower: Vec<u8> = Vec::new();
    let mut k = c;
    while k < line.len()
        invariant
            c <= k <= line@.len(),
            lower@ == lower_bytes(line@.skip(c as int)).take(k - c),
        decreases line@.len() - k,
    {
        let b = line[k];
        let lb = if 0x41u8 <= b && b <= 0x5au8 {
            b + 32
        } else {
            b
        };
        lower.push(lb);
        k += 1;
        assert(lower@ =~= lower_bytes(line@.skip(c as int)).take(k - c));
    }
    assert(lower@ =~= lower_bytes(line@.skip(c as int)));
    let n = lower.len();
    let mut p: usize = 0;
    let ghost pred = coding_pred(lower@);
    while n >= 6 && p <= n - 6 && !(lower[p] == 0x63u8 && lower[p + 1] == 0x6fu8 && lower[p + 2] == 0x64u8
        && lower[p + 3] == 0x69u8 && lower[p + 4] == 0x6eu8 && lower[p + 5] == 0x67u8)
        invariant
            n == lower@.len(),
            p <= n,
            first_from(n - 5, 0, pred) == first_from(n - 5, p as int, pred),
            pred == coding_pred(lower@),
        decreases n - p,
    {
        p += 1;
    }
    if n < 6 || p > n - 6 {
        return None;
    }
    assert(first_from(n - 5, 0, pred) == Some(p as int));
    let i1 = skip_blanks_from(lower.as_slice(), p + 6);
    if !(i1 < n && (lower[i1] == 0x3au8 || lower[i1] == 0x3du8)) {
        return None;
    }
    let start = skip_blanks_from(lower.as_slice(), i1 + 1);
    let end = skip_name_from(lower.as_slice(), start);
    if start == end {
        return None;
    }
    Some(slice_to_vec(line, c + start, c + end))
}

/// The encoding declared in the first two lines of a source (PEP 263).
pub fn find_source_encoding(bytes: &[u8]) -> (r: Option<Vec<u8>>)
    ensures
        opt_bytes(r) == source_encoding(bytes@),
{
    let first_end = find_byte_from(bytes, 0x0au8);
    let first_line = slice_to_vec(bytes, 0, first_end);
    assert(first_line@ =~= bytes@.take(first_end as int));
    if let Some(e) = find_encoding_in_line(first_line.as_slice()) {
        return Some(e);
    }
    let mut k: usize = 0;
    let ghost fl = first_line@;
    while k < first_line.len() && (first_line[k] == 0x20u8 || first_line[k] == 0x09u8
        || first_line[k] == 0x0cu8)
        invariant
            k <= fl.len(),
            fl == first_line@,
            first_from(fl.len() as int, 0, not_indent_at(fl)) == first_from(
                fl.len() as int,
                k as int,
                not_indent_at(fl),
            ),
        decreases fl.len() - k,
    {
        k += 1;
    }
    if k < first_line.len() && !(first_line[k] == 0x23u8 || first_line[k] == 0x0du8) {
        return None;
    }
    if first_end == bytes.len() {
        return None;
    }
    let rest = slice_to_vec(bytes, first_end + 1, bytes.len());
    assert(rest@ =~= bytes@.skip(first_end + 1));
    let second_end = find_byte_from(rest.as_slice(), 0x0au8);
    let second = slice_to_vec(rest.as_slice(), 0, second_end);
    assert(second@ =~= rest@.take(second_end as int));
    find_encoding_in_line(second.as_slice())
}

fn bytes_eq(a: &[u8], b: &[u8]) -> (r: bool)
    ensures
        r == (a@ == b@),
{
    if a.len() != b.len() {
        return false;
    }
    let mut i: usize = 0;
    while i < a.len()
        invariant
            a@.len() == b@.len(),
            i <= a@.len(),
            a@.take(i as int) == b@.take(i as int),
        decreases a@.len() - i,
    {
        if a[i] != b[i] {
            assert(a@[i as int] != b@[i as int]);
            return false;
        }
        i += 1;
        assert(a@.take(i as int) =~= a@.take(i - 1).push(a@[i - 1]));
        assert(b@.take(i as int) =~= b@.take(i - 1).push(b@[i - 1]));
    }
    assert(a@ =~= a@.take(a@.len() as int));
    assert(b@ =~= b@.take(b@.len() as int));
    true
}

fn latin1_string(s: &[u8]) -> (r: String)
    ensures
        r@ == latin1(s@),
{
    let mut out: Vec<char> = Vec::new();
    let mut i: usize = 0;
    while i < s.len()
        invariant
            i <= s@.len(),
            out@ == latin1(s@.take(i as int)),
        decreases s@.len() - i,
    {
        out.push(s[i] as char);
        i += 1;
        assert(out@ =~= latin1(s@.take(i as int)));
    }
    assert(s@.take(s@.len() as int) =~= s@);
    from_chars(out.as_slice())
}

/// An encoding name lower-cased with `_` turned into `-`.
fn normalize_encoding_name(encoding: &[u8]) -> (r: Vec<u8>)
    ensures
        r@ == normalized_encoding(encoding@),
{
    let mut n: Vec<u8> = Vec::new();
    let mut i: usize = 0;
    while i < encoding.len()
        invariant
            i <= encoding@.len(),
            n@ == normalized_encoding(encoding@).take(i as int),
        decreases encoding@.len() - i,
    {
        let b = encoding[i];
        let lb = if 0x41u8 <= b && b <= 0x5au8 {
            b + 32
        } else {
            b
        };
        let nb = if lb == 0x5fu8 {
            0x2du8
        } else {
            lb
        };
        n.push(nb);
        i += 1;
        assert(n@ =~= normalized_encoding(encoding@).take(i as int));
    }
    assert(n@ =~= normalized_encoding(encoding@));
    n
}

/// Whether a source declares, without a byte-order mark, a codec other
/// than UTF-8, ASCII and Latin-1 (see `unsupported_codec`).
pub fn declares_unsupported_codec(bytes: &[u8]) -> (r: bool)
    ensures
        r == unsupported_codec(bytes@),
{
    if bytes.len() >= 3 && bytes[0] == 0xefu8 && bytes[1] == 0xbbu8 && bytes[2] == 0xbfu8 {
        return false;
    }
    match find_source_encoding(bytes) {
        None => false,
        Some(e) => {
            let n = normalize_encoding_name(e.as_slice());
            let utf8 = bytes_eq(n.as_slice(), &[0x75u8, 0x74u8, 0x66u8, 0x2du8, 0x38u8]) || bytes_eq(
                n.as_slice(),
                &[0x75u8, 0x74u8, 0x66u8, 0x38u8],
            ) || bytes_eq(
                n.as_slice(),
                &[0x75u8, 0x74u8, 0x66u8, 0x2du8, 0x38u8, 0x2du8, 0x73u8, 0x69u8, 0x67u8],
            );
            let ascii = bytes_eq(n.as_slice(), &[0x61u8, 0x73u8, 0x63u8, 0x69u8, 0x69u8]) || bytes_eq(
                n.as_slice(),
                &[0x75u8, 0x73u8, 0x2du8, 0x61u8, 0x73u8, 0x63u8, 0x69u8, 0x69u8],
            );
            let latin = bytes_eq(n.as_slice(), &[0x6cu8, 0x61u8, 0x74u8, 0x69u8, 0x6eu8, 0x2du8, 0x31u8])
                || bytes_eq(n.as_slice(), &[0x6cu8, 0x61u8, 0x74u8, 0x69u8, 0x6eu8, 0x31u8])
                || bytes_eq(
                n.as_slice(),
                &[0x69u8, 0x73u8, 0x6fu8, 0x2du8, 0x38u8, 0x38u8, 0x35u8, 0x39u8, 0x2du8, 0x31u8],
            ) || bytes_eq(
                n.as_slice(),
                &[0x69u8, 0x73u8, 0x6fu8, 0x38u8, 0x38u8, 0x35u8, 0x39u8, 0x2du8, 0x31u8],
            );
            !(utf8 || ascii || latin)
        },
    }
}

/// Decodes the bytes of a Python source file to text.
///
/// A UTF-8 byte-order mark is dropped; a PEP 263 declaration in the first
/// two lines selects UTF-8, ASCII or Latin-1 (default UTF-8). Fails when
/// the mark contradicts the declaration, the bytes are not valid in the
/// codec, or the codec is not one of these. `file_path` is only quoted in
/// the error messages.
pub fn decode_python_source(bytes: &[u8], file_path: &str) -> (r: Result<String, String>)
    ensures
        res_view(r) == decoded_source(bytes@, file_path@),
{
    let bom = bytes.len() >= 3 && bytes[0] == 0xefu8 && bytes[1] == 0xbbu8 && bytes[2] == 0xbfu8;
    let source = if bom {
        slice_to_vec(bytes, 3, bytes.len())
    } else {
        slice_to_vec(bytes, 0, bytes.len())
    };
    assert(bom ==> source@ =~= bytes@.skip(3));
    assert(!bom ==> source@ =~= bytes@);
    let encoding = match find_source_encoding(source.as_slice()) {
        Some(e) => e,
        None => {
            let mut v: Vec<u8> = Vec::new();
            v.push(0x75u8);
            v.push(0x74u8);
            v.push(0x66u8);
            v.push(0x2du8);
            v.push(0x38u8);
            assert(v@ =~= utf8_bytes());
            v
        },
    };
    let mut n: Vec<u8> = Vec::new();
    let mut i: usize = 0;
    while i < encoding.len()
        invariant
            i <= encoding@.len(),
            n@ == normalized_encoding(encoding@).take(i as int),
        decreases encoding@.len() - i,
    {
        let b = encoding[i];
        let lb = if 0x41u8 <= b && b <= 0x5au8 {
            b + 32
        } else {
            b
        };
        let nb = if lb == 0x5fu8 {
            0x2du8
        } else {
            lb
        };
        n.push(nb);
        i += 1;
        assert(n@ =~= normalized_encoding(encoding@).take(i as int));
    }
    assert(n@ =~= normalized_encoding(encoding@));
    let is_utf8 = bytes_eq(n.as_slice(), &[0x75u8, 0x74u8, 0x66u8, 0x2du8, 0x38u8]) || bytes_eq(
        n.as_slice(),
        &[0x75u8, 0x74u8, 0x66u8, 0x38u8],
    ) || bytes_eq(
        n.as_slice(),
        &[0x75u8, 0x74u8, 0x66u8, 0x2du8, 0x38u8, 0x2du8, 0x73u8, 0x69u8, 0x67u8],
    );
    let path_chars = to_chars(file_path);
    let enc_name = latin1_string(encoding.as_slice());
    if bom && !is_utf8 {
        let mut msg = to_chars("encoding problem in ");
        push_str(&mut msg, file_path);
        push_str(&mut msg, ": UTF-8 BOM conflicts with ");
        push_str(&mut msg, enc_name.as_str());
        return Err(from_chars(msg.as_slice()));
    }
    if is_utf8 {
        return match utf8_decode(source.as_slice()) {
            Ok(s) => Ok(s),
            Err(e) => {
                let mut msg = to_chars("decode ");
                push_str(&mut msg, file_path);
                push_str(&mut msg, " as UTF-8: ");
                push_str(&mut msg, e.as_str());
                Err(from_chars(msg.as_slice()))
            },
        };
    }
    let is_ascii = bytes_eq(n.as_slice(), &[0x61u8, 0x73u8, 0x63u8, 0x69u8, 0x69u8]) || bytes_eq(
        n.as_slice(),
        &[0x75u8, 0x73u8, 0x2du8, 0x61u8, 0x73u8, 0x63u8, 0x69u8, 0x69u8],
    );
    if is_ascii {
        let mut j: usize = 0;
        while j < source.len() && source[j] <= 0x7fu8
            invariant
                j <= source@.len(),
                first_from(source@.len() as int, 0, non_ascii_at(source@)) == first_from(
                    source@.len() as int,
                    j as int,
                    non_ascii_at(source@),
                ),
            decreases source@.len() - j,
        {
            j += 1;
        }
        if j < source.len() {
            let mut msg = to_chars("decode ");
            push_str(&mut msg, file_path);
            push_str(&mut msg, " as ASCII: non-ASCII byte at offset ");
            let d = decimal_chars(j as u128);
            let mut m2 = msg;
            crate::text::push_all(&mut m2, d.as_slice());
            return Err(from_chars(m2.as_slice()));
        }
        return Ok(latin1_string(source.as_slice()));
    }
    let is_latin1 = bytes_eq(n.as_slice(), &[0x6cu8, 0x61u8, 0x74u8, 0x69u8, 0x6eu8, 0x2du8, 0x31u8])
        || bytes_eq(n.as_slice(), &[0x6cu8, 0x61u8, 0x74u8, 0x69u8, 0x6eu8, 0x31u8]) || bytes_eq(
        n.as_slice(),
        &[0x69u8, 0x73u8, 0x6fu8, 0x2du8, 0x38u8, 0x38u8, 0x35u8, 0x39u8, 0x2du8, 0x31u8],
    ) || bytes_eq(
        n.as_slice(),
        &[0x69u8, 0x73u8, 0x6fu8, 0x38u8, 0x38u8, 0x35u8, 0x39u8, 0x2du8, 0x31u8],
    );
    if is_latin1 {
        return Ok(latin1_string(source.as_slice()));
    }
    let mut msg = to_chars("unsupported source encoding \"");
    push_str(&mut msg, enc_name.as_str());
    push_str(&mut msg, "\" in ");
    push_str(&mut msg, file_path);
    proof {
        let _ = path_chars;
    }
    Err(from_chars(msg.as_slice()))
}

} // verus!
