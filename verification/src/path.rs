//! What the library asks of `std::path`. Paths are parsed by the standard
//! library alone; the functions here hand it text and take text back.
use vstd::prelude::*;

verus! {

/// The extension that `std::path::Path::extension` finds in `path`: the part of
/// the final component after its last `.`, and `None` where that component is
/// missing, holds no `.`, or holds only a leading one.
pub uninterp spec fn path_extension(path: Seq<char>) -> Option<Seq<char>>;

/// Whether `std::path::Path::ends_with` finds that the trailing components of
/// `path` are exactly the components of `tail`.
pub uninterp spec fn path_ends_with(path: Seq<char>, tail: Seq<char>) -> bool;

/// Calls `Path::extension` on `path`. The contract names the result; nothing
/// more is claimed of it.
#[verifier::external_body]
pub(crate) fn extension_of(path: &str) -> (ext: Option<String>)
    ensures
        ext.deep_view() == path_extension(path@),
{
    std::path::Path::new(path).extension().map(|e| e.to_string_lossy().into_owned())
}

/// Calls `Path::ends_with` on `path`. The contract names the result; nothing
/// more is claimed of it.
#[verifier::external_body]
pub(crate) fn has_trailing_components(path: &str, tail: &str) -> (r: bool)
    ensures
        r == path_ends_with(path@, tail@),
{
    std::path::Path::new(path).ends_with(tail)
}

/// The directory that `std::path::Path::parent` finds for `path`, and `None`
/// where the path ends in a root or is empty.
pub uninterp spec fn path_parent(path: Seq<char>) -> Option<Seq<char>>;

/// The path that `std::path::Path::join` makes of `dir` and `rest`: `rest`
/// under `dir`, and `rest` alone where it is absolute.
pub uninterp spec fn path_join(dir: Seq<char>, rest: Seq<char>) -> Seq<char>;

/// Whether `a` comes before `b` in the order of `std::path::Path`, which
/// compares paths component by component.
pub uninterp spec fn path_before(a: Seq<char>, b: Seq<char>) -> bool;

/// What the standard library promises of the order of paths: no path comes
/// before itself, and the order carries over a path in between.
pub open spec fn path_order_holds() -> bool {
    &&& forall|a: Seq<char>| !#[trigger] path_before(a, a)
    &&& forall|a: Seq<char>, b: Seq<char>, c: Seq<char>|
        #[trigger] path_before(a, b) && #[trigger] path_before(b, c) ==> path_before(a, c)
}

/// Whether `r` answers whether `a` comes before `b`, in an order that is a
/// strict one.
pub open spec fn is_order_answer(r: bool, a: Seq<char>, b: Seq<char>) -> bool {
    r == path_before(a, b) && path_order_holds()
}

/// Calls `Path::parent` on `path`. The contract names the result; nothing
/// more is claimed of it.
#[verifier::external_body]
pub(crate) fn parent_of(path: &str) -> (dir: Option<String>)
    ensures
        dir.deep_view() == path_parent(path@),
{
    std::path::Path::new(path).parent().map(|d| d.to_string_lossy().into_owned())
}

/// Calls `Path::join` on `dir`. The contract names the result; nothing more
/// is claimed of it.
#[verifier::external_body]
pub(crate) fn join_paths(dir: &str, rest: &str) -> (joined: String)
    ensures
        joined@ == path_join(dir@, rest@),
{
    std::path::Path::new(dir).join(rest).to_string_lossy().into_owned()
}

/// Compares two paths with `<`, the order of `Path`. The contract names the
/// answer and recalls that the order is a strict one, as `Ord` promises.
#[verifier::external_body]
pub(crate) fn comes_before(a: &str, b: &str) -> (r: bool)
    ensures
        r == path_before(a@, b@),
        is_order_answer(r, a@, b@),
{
    std::path::Path::new(a) < std::path::Path::new(b)
}

} // verus!
