//! Python tokens as the library reads them. Ruff's tokenizer gives each
//! token's kind and its range in bytes of the UTF-8 text; the library turns
//! the byte offsets into character positions.
use vstd::prelude::*;
use ruff_python_ast::PySourceType;
use ruff_python_ast::token::TokenKind;
use ruff_text_size::Ranged;
use crate::text::first_from;

verus! {

/// The kinds of token the library tells apart; every other kind is `Other`.
#[derive(Debug, Clone, Copy, PartialEq, Eq, Structural)]
pub enum TokenClass {
    Comment,
    String,
    FStringStart,
    FStringEnd,
    TStringStart,
    TStringEnd,
    Import,
    From,
    Newline,
    Semi,
    Colon,
    Other,
}

/// A token with its range in bytes.
#[derive(Debug)]
pub struct RawToken {
    pub class: TokenClass,
    pub start: u32,
    pub end: u32,
}

/// The views of byte-ranged tokens.
pub open spec fn raw_tokens_view(v: Seq<RawToken>) -> Seq<(TokenClass, int, int)> {
    v.map_values(|t: RawToken| (t.class, t.start as int, t.end as int))
}

/// The tokens Ruff finds in a source, with their byte ranges.
pub uninterp spec fn python_tokens(source: Seq<char>) -> Seq<(TokenClass, int, int)>;

/// The most characters a source may have: Ruff measures text in 32-bit
/// byte offsets, and a character takes at most four bytes.
pub const MAX_SOURCE_CHARS: usize = 0x3fff_ffff;

/// Ruff's tokens of a source (`ruff_python_parser::parse_unchecked_source`
/// as a Python module, then `tokens()`), each with its kind and byte range.
/// Claimed: the result is `python_tokens` of the source, a function of the
/// source alone; the parser also tokenizes text that does not parse.
#[verifier::external_body]
fn tokenize(source: &str) -> (r: Vec<RawToken>)
    requires
        source@.len() <= MAX_SOURCE_CHARS,
    ensures
        raw_tokens_view(r@) == python_tokens(source@),
{
    let parsed = ruff_python_parser::parse_unchecked_source(source, PySourceType::Python);
    parsed.tokens().iter().map(|t| RawToken { class: match t.kind() {
        TokenKind::Comment => TokenClass::Comment, TokenKind::String => TokenClass::String,
        TokenKind::FStringStart => TokenClass::FStringStart, TokenKind::FStringEnd => TokenClass::FStringEnd,
        TokenKind::TStringStart => TokenClass::TStringStart, TokenKind::TStringEnd => TokenClass::TStringEnd,
        TokenKind::Import => TokenClass::Import, TokenKind::From => TokenClass::From,
        TokenKind::Newline => TokenClass::Newline, TokenKind::Semi => TokenClass::Semi,
        TokenKind::Colon => TokenClass::Colon, _ => TokenClass::Other,
    }, start: t.start().to_u32(), end: t.end().to_u32() }).collect()
}

/// How many bytes UTF-8 takes for a character.
pub open spec fn utf8_len(c: char) -> int {
    if (c as u32) < 0x80 {
        1
    } else if (c as u32) < 0x800 {
        2
    } else if (c as u32) < 0x10000 {
        3
    } else {
        4
    }
}

/// The byte offset at which character `i` of `s` starts.
pub open spec fn byte_start(s: Seq<char>, i: nat) -> int
    decreases i,
{
    if i == 0 {
        0
    } else {
        byte_start(s, (i - 1) as nat) + utf8_len(s[i - 1])
    }
}

/// The character position of byte offset `b`: the first character that
/// starts at or after it, or the end.
pub open spec fn char_index(s: Seq<char>, b: int) -> int {
    match first_from(s.len() as int, 0, |i: int| byte_start(s, i as nat) >= b) {
        Some(i) => i,
        None => s.len() as int,
    }
}

/// The tokens of a source with character positions.
pub open spec fn tokens_of(s: Seq<char>) -> Seq<(TokenClass, int, int)> {
    python_tokens(s).map_values(|t: (TokenClass, int, int)| (t.0, char_index(s, t.1), char_index(s, t.2)))
}

/// A token with its range in characters.
#[derive(Debug)]
pub struct Token {
    pub class: TokenClass,
    pub start: usize,
    pub end: usize,
}

/// The views of tokens.
pub open spec fn tokens_view(v: Seq<Token>) -> Seq<(TokenClass, int, int)> {
    v.map_values(|t: Token| (t.class, t.start as int, t.end as int))
}

fn utf8_len_exec(c: char) -> (r: u64)
    ensures
        r == utf8_len(c),
{
    let v = c as u32;
    if v < 0x80 {
        1
    } else if v < 0x800 {
        2
    } else if v < 0x10000 {
        3
    } else {
        4
    }
}

/// Where each character starts in bytes, and where the text ends.
pub fn byte_starts(s: &[char]) -> (r: Vec<u64>)
    requires
        s@.len() <= MAX_SOURCE_CHARS,
    ensures
        r@.len() == s@.len() + 1,
        forall|i: int| 0 <= i <= s@.len() ==> r@[i] == byte_start(s@, i as nat),
        forall|i: int, j: int| 0 <= i < j <= s@.len() ==> r@[i] < r@[j],
{
    let mut out: Vec<u64> = Vec::new();
    let mut acc: u64 = 0;
    let mut i: usize = 0;
    while i < s.len()
        invariant
            i <= s@.len(),
            s@.len() <= MAX_SOURCE_CHARS,
            out@.len() == i,
            acc == byte_start(s@, i as nat),
            acc <= 4 * i,
            forall|k: int| 0 <= k < i ==> out@[k] == byte_start(s@, k as nat),
            forall|a: int, b: int| 0 <= a < b < i ==> out@[a] < out@[b],
            forall|k: int| 0 <= k < i ==> out@[k] < acc,
        decreases s@.len() - i,
    {
        out.push(acc);
        acc = acc + utf8_len_exec(s[i]);
        i += 1;
    }
    out.push(acc);
    out
}

/// The character position of byte offset `b` (see `char_index`).
pub(crate) fn char_index_exec(s: &[char], starts: &Vec<u64>, b: u64) -> (r: usize)
    requires
        starts@.len() == s@.len() + 1,
        forall|i: int| 0 <= i <= s@.len() ==> starts@[i] == byte_start(s@, i as nat),
        forall|i: int, j: int| 0 <= i < j <= s@.len() ==> starts@[i] < starts@[j],
    ensures
        r == char_index(s@, b as int),
        r <= s@.len(),
{
    let n = s.len();
    let mut lo: usize = 0;
    let mut hi: usize = n;
    while lo < hi
        invariant
            lo <= hi <= n,
            n == s@.len(),
            starts@.len() == n + 1,
            forall|i: int| 0 <= i <= n ==> starts@[i] == byte_start(s@, i as nat),
            forall|i: int, j: int| 0 <= i < j <= n ==> starts@[i] < starts@[j],
            forall|i: int| 0 <= i < lo ==> starts@[i] < b,
            forall|i: int| hi <= i < n ==> starts@[i] >= b,
        decreases hi - lo,
    {
        let mid = lo + (hi - lo) / 2;
        if starts[mid] < b {
            lo = mid + 1;
        } else {
            hi = mid;
        }
    }
    let ghost p = |i: int| byte_start(s@, i as nat) >= b;
    assert forall|k: int| 0 <= k < lo implies !#[trigger] p(k) by {
        assert(starts@[k] < b);
    }
    proof {
        if lo < n {
            assert(starts@[lo as int] >= b);
            assert(p(lo as int));
            crate::declaration::lemma_first_is(n as int, 0, p, lo as int);
        } else {
            crate::declaration::lemma_first_none(n as int, 0, p);
        }
    }
    lo
}

/// Ruff's tokens of a source, with character positions (see `tokens_of`).
pub fn tokens(source: &str) -> (r: Vec<Token>)
    requires
        source@.len() <= MAX_SOURCE_CHARS,
    ensures
        tokens_view(r@) == tokens_of(source@),
        forall|k: int| 0 <= k < r@.len() ==> (#[trigger] r@[k]).start <= source@.len() && r@[k].end <= source@.len(),
{
    let raw = tokenize(source);
    let s = crate::text::to_chars(source);
    let starts = byte_starts(s.as_slice());
    let mut out: Vec<Token> = Vec::new();
    let mut i: usize = 0;
    while i < raw.len()
        invariant
            i <= raw@.len(),
            s@ == source@,
            starts@.len() == s@.len() + 1,
            forall|k: int| 0 <= k <= s@.len() ==> starts@[k] == byte_start(s@, k as nat),
            forall|a: int, b: int| 0 <= a < b <= s@.len() ==> starts@[a] < starts@[b],
            raw_tokens_view(raw@) == python_tokens(source@),
            tokens_view(out@) == tokens_of(source@).take(i as int),
            forall|k: int| 0 <= k < out@.len() ==> (#[trigger] out@[k]).start <= source@.len() && out@[k].end <= source@.len(),
        decreases raw@.len() - i,
    {
        let t = &raw[i];
        let a = char_index_exec(s.as_slice(), &starts, t.start as u64);
        let b = char_index_exec(s.as_slice(), &starts, t.end as u64);
        let ghost before = out@;
        out.push(Token { class: t.class, start: a, end: b });
        assert(raw_tokens_view(raw@)[i as int] == (t.class, t.start as int, t.end as int));
        assert(tokens_view(out@) =~= tokens_view(before).push((t.class, a as int, b as int)));
        assert(tokens_of(source@).take(i + 1) =~= tokens_of(source@).take(i as int).push(
            tokens_of(source@)[i as int],
        ));
        i += 1;
    }
    assert(tokens_of(source@).take(raw@.len() as int) =~= tokens_of(source@));
    out
}

} // verus!
