//! File-system paths, held as UTF-8 strings; their parts come from
//! `std::path`. What `std::path` gives depends on the path syntax of the
//! target the crate is built for (separators, roots, prefixes), so the
//! names below stand for its results on that target.
use vstd::prelude::*;

verus! {

/// What `Path::file_name` gives for a path: its last component, unless
/// the path ends in `..` or has none.
pub uninterp spec fn std_path_file_name(p: Seq<char>) -> Option<Seq<char>>;

/// What `Path::parent` gives for a path: the path without its last
/// component, if it has one.
pub uninterp spec fn std_path_parent(p: Seq<char>) -> Option<Seq<char>>;

/// What `Path::join` gives: `b` appended to `a` as a new component, or `b`
/// alone when `b` is absolute.
pub uninterp spec fn std_path_join(a: Seq<char>, b: Seq<char>) -> Seq<char>;

/// The last component of `p` (`Path::file_name`). A name read from a UTF-8
/// path is UTF-8 itself, so the conversion to `str` always succeeds.
#[verifier::external_body]
pub(crate) fn path_file_name(p: &str) -> (r: Option<String>)
    ensures
        r matches Some(s) ==> std_path_file_name(p@) == Some(s@),
        r is None ==> std_path_file_name(p@) is None,
{
    std::path::Path::new(p).file_name().map(|n| n.to_string_lossy().to_string())
}

/// `p` without its last component (`Path::parent`).
#[verifier::external_body]
pub(crate) fn path_parent(p: &str) -> (r: Option<String>)
    ensures
        r matches Some(s) ==> std_path_parent(p@) == Some(s@),
        r is None ==> std_path_parent(p@) is None,
{
    std::path::Path::new(p).parent().map(|n| n.to_string_lossy().to_string())
}

/// `b` joined onto `a` (`Path::join`).
#[verifier::external_body]
pub(crate) fn path_join(a: &str, b: &str) -> (r: String)
    ensures
        r@ == std_path_join(a@, b@),
{
    std::path::Path::new(a).join(b).to_string_lossy().to_string()
}

/// Whether `p` starts with `q`.
pub open spec fn starts_with(p: Seq<char>, q: Seq<char>) -> bool {
    q.len() <= p.len() && p.take(q.len() as int) == q
}

/// Whether `p` ends with `q`.
pub open spec fn ends_with(p: Seq<char>, q: Seq<char>) -> bool {
    q.len() <= p.len() && p.skip(p.len() - q.len()) == q
}

/// Whether `p` starts with `q` (`str::starts_with` for a `&str` pattern).
pub fn str_starts_with(p: &str, q: &str) -> (r: bool)
    ensures
        r == starts_with(p@, q@),
{
    let pc = crate::text::chars_of(p);
    let qc = crate::text::chars_of(q);
    if qc.len() > pc.len() {
        return false;
    }
    let mut i: usize = 0;
    while i < qc.len()
        invariant
            i <= qc@.len() <= pc@.len(),
            pc@ == p@,
            qc@ == q@,
            forall|j: int| 0 <= j < i ==> pc@[j] == qc@[j],
        decreases qc@.len() - i,
    {
        if pc[i] != qc[i] {
            assert(p@.take(q@.len() as int)[i as int] != q@[i as int]);
            return false;
        }
        i += 1;
    }
    assert(p@.take(q@.len() as int) =~= q@);
    true
}

/// Whether `p` ends with `q` (`str::ends_with` for a `&str` pattern).
pub fn str_ends_with(p: &str, q: &str) -> (r: bool)
    ensures
        r == ends_with(p@, q@),
{
    let pc = crate::text::chars_of(p);
    let qc = crate::text::chars_of(q);
    if qc.len() > pc.len() {
        return false;
    }
    let plen = pc.len();
    let off = plen - qc.len();
    let mut i: usize = 0;
    while i < qc.len()
        invariant
            i <= qc@.len() <= pc@.len(),
            off == pc@.len() - qc@.len(),
            plen == pc@.len(),
            pc@ == p@,
            qc@ == q@,
            forall|j: int| 0 <= j < i ==> pc@[off + j] == qc@[j],
        decreases qc@.len() - i,
    {
        if pc[off + i] != qc[i] {
            assert(p@.skip(off as int)[i as int] != q@[i as int]);
            return false;
        }
        i += 1;
    }
    assert(p@.skip(off as int) =~= q@);
    true
}

} // verus!
