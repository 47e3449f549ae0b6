//! Where the re-encoded image goes: beside its source, named
//! `compressed_<stem>.jpg`. Paths are handled as UTF-8 bytes; `/` and `.` never
//! occur inside a multi-byte character, so splitting on them is safe.
use vstd::prelude::*;

verus! {

pub const SLASH: u8 = 0x2f;

pub const DOT: u8 = 0x2e;

/// The prefix put before the source's file stem.
pub open spec fn prefix() -> Seq<u8> {
    seq![0x63u8, 0x6f, 0x6d, 0x70, 0x72, 0x65, 0x73, 0x73, 0x65, 0x64, 0x5f]
}

/// The extension of the output, dot included.
pub open spec fn jpg_extension() -> Seq<u8> {
    seq![0x2eu8, 0x6a, 0x70, 0x67]
}

/// The index of the last `b` in `s`, or -1 when there is none.
pub open spec fn last_index(s: Seq<u8>, b: u8) -> int
    decreases s.len(),
{
    if s.len() == 0 {
        -1
    } else if s.last() == b {
        s.len() - 1
    } else {
        last_index(s.drop_last(), b)
    }
}

/// The directory part of a path, its trailing `/` included (empty when the
/// path has none).
pub open spec fn dir_of(path: Seq<u8>) -> Seq<u8> {
    path.take(last_index(path, SLASH) + 1)
}

/// The file name: what follows the last `/`.
pub open spec fn name_of(path: Seq<u8>) -> Seq<u8> {
    path.skip(last_index(path, SLASH) + 1)
}

/// The file name without its last extension.
pub open spec fn stem_of(name: Seq<u8>) -> Seq<u8> {
    let d = last_index(name, DOT);
    if d >= 0 { name.take(d) } else { name }
}

/// A path names a file when its file name is neither empty, `.` nor `..`.
pub open spec fn names_file(path: Seq<u8>) -> bool {
    let name = name_of(path);
    name.len() != 0 && name != seq![DOT] && name != seq![DOT, DOT]
}

/// The output path for a source path.
pub open spec fn output_path_of(path: Seq<u8>) -> Seq<u8> {
    dir_of(path) + prefix() + stem_of(name_of(path)) + jpg_extension()
}

proof fn lemma_last_index_bounds(s: Seq<u8>, b: u8)
    ensures
        -1 <= last_index(s, b) < s.len(),
        last_index(s, b) >= 0 ==> s[last_index(s, b)] == b,
    decreases s.len(),
{
    if s.len() > 0 && s.last() != b {
        lemma_last_index_bounds(s.drop_last(), b);
    }
}

/// Finds the last `b` in `s`.
fn find_last(s: &[u8], b: u8) -> (r: Option<usize>)
    ensures
        r is None <==> last_index(s@, b) == -1,
        r matches Some(i) ==> i == last_index(s@, b) && i < s@.len() && s@[i as int] == b,
{
    let mut i: usize = s.len();
    assert(s@.take(s@.len() as int) =~= s@);
    while i > 0
        invariant
            i <= s@.len(),
            last_index(s@, b) == last_index(s@.take(i as int), b),
        decreases i,
    {
        assert(s@.take(i as int).drop_last() =~= s@.take(i - 1));
        if s[i - 1] == b {
            return Some(i - 1);
        }
        i -= 1;
    }
    None
}

/// Appends `s[lo..hi]` to `out`.
fn push_range(out: &mut Vec<u8>, s: &[u8], lo: usize, hi: usize)
    requires
        lo <= hi <= s@.len(),
    ensures
        final(out)@ == old(out)@ + s@.subrange(lo as int, hi as int),
{
    let mut i: usize = lo;
    while i < hi
        invariant
            lo <= i <= hi <= s@.len(),
            out@ == old(out)@ + s@.subrange(lo as int, i as int),
        decreases hi - i,
    {
        out.push(s[i]);
        assert(s@.subrange(lo as int, i + 1) =~= s@.subrange(lo as int, i as int).push(s@[i as int]));
        i += 1;
    }
}

/// Whether a file name is `.` or `..`.
fn is_dot_name(name: &Vec<u8>) -> (r: bool)
    ensures
        r == (name@ == seq![DOT] || name@ == seq![DOT, DOT]),
{
    let n: usize = name.len();
    if n == 1 {
        assert(name@.len() != seq![DOT, DOT].len());
        if name[0] == DOT {
            assert(name@ =~= seq![DOT]);
            true
        } else {
            assert(name@[0] != seq![DOT][0]);
            false
        }
    } else if n == 2 {
        assert(name@.len() != seq![DOT].len());
        if name[0] == DOT && name[1] == DOT {
            assert(name@ =~= seq![DOT, DOT]);
            true
        } else {
            assert(name@[0] != seq![DOT, DOT][0] || name@[1] != seq![DOT, DOT][1]);
            false
        }
    } else {
        assert(name@.len() != seq![DOT].len());
        assert(name@.len() != seq![DOT, DOT].len());
        false
    }
}

/// Appends `compressed_` to `out`.
fn push_prefix(out: &mut Vec<u8>)
    ensures
        final(out)@ == old(out)@ + prefix(),
{
    out.push(0x63);
    out.push(0x6f);
    out.push(0x6d);
    out.push(0x70);
    out.push(0x72);
    out.push(0x65);
    out.push(0x73);
    out.push(0x73);
    out.push(0x65);
    out.push(0x64);
    out.push(0x5f);
    assert(final(out)@ =~= old(out)@ + prefix());
}

/// Appends `.jpg` to `out`.
fn push_extension(out: &mut Vec<u8>)
    ensures
        final(out)@ == old(out)@ + jpg_extension(),
{
    out.push(DOT);
    out.push(0x6a);
    out.push(0x70);
    out.push(0x67);
    assert(final(out)@ =~= old(out)@ + jpg_extension());
}

/// The path of the re-encoded image: the source's directory, then
/// `compressed_`, the source's file stem and `.jpg`. `None` when the source
/// path names no file.
pub fn output_path(path: &[u8]) -> (r: Option<Vec<u8>>)
    ensures
        r is Some <==> names_file(path@),
        r matches Some(p) ==> p@ == output_path_of(path@),
{
    let len: usize = path.len();
    let start: usize = match find_last(path, SLASH) {
        Some(i) => i + 1,
        None => 0,
    };
    let mut name: Vec<u8> = Vec::new();
    push_range(&mut name, path, start, len);
    assert(name@ =~= name_of(path@));
    if name.len() == 0 || is_dot_name(&name) {
        return None;
    }
    let stem_end: usize = match find_last(name.as_slice(), DOT) {
        Some(d) => d,
        None => name.len(),
    };
    let mut out: Vec<u8> = Vec::new();
    push_range(&mut out, path, 0, start);
    assert(out@ =~= dir_of(path@));
    push_prefix(&mut out);
    push_range(&mut out, name.as_slice(), 0, stem_end);
    assert(name@.subrange(0, stem_end as int) =~= stem_of(name@));
    push_extension(&mut out);
    Some(out)
}

} // verus!
