//! Interpreters asked for `sys.path`, and the entries they print.
use vstd::prelude::*;
use crate::resolver::{AncestorFile, is_importable_zip, zip_split};
use crate::text::{string_of, strings_contain, sviews, to_chars};

verus! {

broadcast use vstd::string::group_string_axioms;

/// The interpreters tried on Unix-like systems, in order.
pub open spec fn unix_interpreters() -> Seq<Seq<char>> {
    seq!["python3"@, "python"@, "pypy3"@, "pypy"@]
}

/// The interpreters tried on Windows, in order.
pub open spec fn windows_interpreters() -> Seq<Seq<char>> {
    seq!["py"@, "python"@, "python3"@, "pypy3"@, "pypy"@]
}

/// The interpreters tried by default (see `default_interpreters`): outside
/// Windows exactly the common commands `python3`, `python`, `pypy3` and
/// `pypy`, in that order, so `python3` is asked first; on Windows the `py`
/// launcher first, followed by every one of those commands.
pub proof fn lemma_default_interpreters()
    ensures
        unix_interpreters() == seq!["python3"@, "python"@, "pypy3"@, "pypy"@],
        windows_interpreters().len() == 5,
        windows_interpreters()[0] == "py"@,
        forall|c: int|
            0 <= c < unix_interpreters().len() ==> exists|i: int|
                1 <= i < windows_interpreters().len() && windows_interpreters()[i]
                    == #[trigger] unix_interpreters()[c],
{
    let w = windows_interpreters();
    let u = unix_interpreters();
    assert forall|c: int| 0 <= c < u.len() implies exists|i: int| 1 <= i < w.len() && w[i] == #[trigger] u[c] by {
        if c == 0 {
            assert(w[2] == u[c]);
        } else if c == 1 {
            assert(w[1] == u[c]);
        } else {
            assert(w[c + 1] == u[c]);
        }
    }
}

/// The interpreters tried by default: the `py` launcher first on Windows,
/// then the common Python commands.
pub fn default_interpreters(windows: bool) -> (r: Vec<String>)
    ensures
        sviews(r@) == if windows {
            windows_interpreters()
        } else {
            unix_interpreters()
        },
{
    let mut v: Vec<String> = Vec::new();
    if windows {
        v.push(string_of("py"));
    }
    v.push(string_of("python"));
    if windows {
        v.push(string_of("python3"));
    } else {
        v.insert(0, string_of("python3"));
    }
    v.push(string_of("pypy3"));
    v.push(string_of("pypy"));
    proof {
        if windows {
            assert(sviews(v@) =~= windows_interpreters());
        } else {
            assert(sviews(v@) =~= unix_interpreters());
        }
    }
    v
}

/// The interpreters to ask for `sys.path`: the ones given, or the
/// platform defaults when none is given.
pub fn cli_interpreters(given: Vec<String>, windows: bool) -> (r: Vec<String>)
    ensures
        sviews(r@) == if given@.len() == 0 {
            if windows {
                windows_interpreters()
            } else {
                unix_interpreters()
            }
        } else {
            sviews(given@)
        },
{
    if given.len() == 0 {
        default_interpreters(windows)
    } else {
        given
    }
}

/// Bytes split at every `0`: one more piece than there are `0`s.
pub open spec fn split_nul(s: Seq<u8>) -> Seq<Seq<u8>>
    decreases s.len(),
{
    if s.len() == 0 {
        seq![Seq::<u8>::empty()]
    } else {
        let p = split_nul(s.drop_last());
        if s.last() == 0u8 {
            p.push(Seq::<u8>::empty())
        } else {
            p.update(p.len() - 1, p.last().push(s.last()))
        }
    }
}

/// Bytes without trailing `\r` and `\n`.
pub open spec fn trim_line_end(s: Seq<u8>) -> Seq<u8>
    decreases s.len(),
{
    if s.len() > 0 && (s.last() == 0x0du8 || s.last() == 0x0au8) {
        trim_line_end(s.drop_last())
    } else {
        s
    }
}

/// The `sys.path` entries an interpreter printed: the pieces between
/// `0` bytes; output without any `0` is one entry, without its line end.
pub open spec fn path_tokens(s: Seq<u8>) -> Seq<Seq<u8>> {
    if s.contains(0u8) {
        split_nul(s)
    } else {
        seq![trim_line_end(s)]
    }
}

/// The views of byte vectors.
pub open spec fn bviews(v: Seq<Vec<u8>>) -> Seq<Seq<u8>> {
    v.map_values(|x: Vec<u8>| x@)
}

/// Splits what an interpreter printed into `sys.path` entries, keeping
/// their bytes as they are.
pub fn sys_path_tokens(stdout: Vec<u8>) -> (r: Vec<Vec<u8>>)
    ensures
        bviews(r@) == path_tokens(stdout@),
{
    let mut nul = false;
    let mut i: usize = 0;
    while i < stdout.len()
        invariant
            i <= stdout@.len(),
            nul == (exists|k: int| 0 <= k < i && stdout@[k] == 0u8),
        decreases stdout@.len() - i,
    {
        if stdout[i] == 0u8 {
            nul = true;
        }
        i += 1;
    }
    assert(nul == stdout@.contains(0u8));
    let mut out: Vec<Vec<u8>> = Vec::new();
    if !nul {
        let mut end = stdout.len();
        assert(stdout@.take(end as int) =~= stdout@);
        while end > 0 && (stdout[end - 1] == 0x0du8 || stdout[end - 1] == 0x0au8)
            invariant
                end <= stdout@.len(),
                trim_line_end(stdout@) == trim_line_end(stdout@.take(end as int)),
            decreases end,
        {
            assert(stdout@.take(end as int).drop_last() =~= stdout@.take(end - 1));
            end -= 1;
        }
        let mut v = stdout;
        v.truncate(end);
        assert(v@ =~= trim_line_end(v@)) by {
            if v@.len() > 0 {
                assert(v@.last() == stdout@[end - 1]);
            }
        }
        out.push(v);
        assert(bviews(out@) =~= seq![trim_line_end(stdout@)]);
        return out;
    }
    let mut cur: Vec<u8> = Vec::new();
    let mut j: usize = 0;
    while j < stdout.len()
        invariant
            j <= stdout@.len(),
            bviews(out@).push(cur@) == split_nul(stdout@.take(j as int)),
        decreases stdout@.len() - j,
    {
        let ghost p = split_nul(stdout@.take(j as int));
        assert(stdout@.take(j + 1).drop_last() =~= stdout@.take(j as int));
        assert(stdout@.take(j + 1).last() == stdout@[j as int]);
        if stdout[j] == 0u8 {
            let ghost before = out@;
            out.push(cur);
            cur = Vec::new();
            assert(bviews(out@).push(cur@) =~= p.push(Seq::<u8>::empty())) by {
                assert(bviews(out@) =~= bviews(before).push(p.last()));
            }
        } else {
            cur.push(stdout[j]);
            assert(bviews(out@).push(cur@) =~= p.update(p.len() - 1, p.last().push(stdout@[j as int])));
        }
        j += 1;
    }
    assert(stdout@.take(stdout@.len() as int) =~= stdout@);
    let ghost before = out@;
    out.push(cur);
    assert(bviews(out@) =~= bviews(before).push(cur@));
    out
}


/// A `sys.path` entry as found on disk: its absolute path, whether it is a
/// directory, and its ancestors (for entries inside a ZIP archive).
#[derive(Debug)]
pub struct PathEntry {
    /// The absolute path.
    pub path: String,
    /// Whether it is a directory.
    pub is_dir: bool,
    /// Its ancestors, nearest first, starting with the path itself.
    pub ancestors: Vec<AncestorFile>,
}

/// The entries kept as search roots, in order: each directory or path
/// inside a readable ZIP archive, once.
pub open spec fn admitted(entries: Seq<PathEntry>) -> Seq<Seq<char>>
    decreases entries.len(),
{
    if entries.len() == 0 {
        Seq::<Seq<char>>::empty()
    } else {
        let prev = admitted(entries.drop_last());
        let e = entries.last();
        if prev.contains(e.path@) || !(e.is_dir || zip_split(e.path@, e.ancestors@, 0) is Some) {
            prev
        } else {
            prev.push(e.path@)
        }
    }
}

/// The `sys.path` entries kept as search roots (see `admitted`).
pub fn admit_sys_paths(entries: &[PathEntry]) -> (r: Vec<String>)
    ensures
        sviews(r@) == admitted(entries@),
{
    let mut out: Vec<String> = Vec::new();
    let mut i: usize = 0;
    while i < entries.len()
        invariant
            i <= entries@.len(),
            sviews(out@) == admitted(entries@.take(i as int)),
        decreases entries@.len() - i,
    {
        assert(entries@.take(i + 1).drop_last() =~= entries@.take(i as int));
        let e = &entries[i];
        let pc = to_chars(e.path.as_str());
        if !strings_contain(out.as_slice(), pc.as_slice()) && (e.is_dir || is_importable_zip(
            e.path.as_str(),
            e.ancestors.as_slice(),
        )) {
            let ghost before = out@;
            out.push(e.path.clone());
            assert(sviews(out@) =~= sviews(before).push(e.path@));
        }
        i += 1;
    }
    assert(entries@.take(entries@.len() as int) =~= entries@);
    out
}

} // verus!
