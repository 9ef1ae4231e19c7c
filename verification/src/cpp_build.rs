//! Location of the C++ headers for building C++ activities.

use vstd::prelude::*;
use crate::tracer::opt_text;

verus! {

/// The parent of a path as `std::path::Path::parent` gives it.
pub uninterp spec fn path_parent(path: Seq<char>) -> Option<Seq<char>>;

/// The path `base` extended by `part` as `std::path::Path::join` gives it.
pub uninterp spec fn path_join(base: Seq<char>, part: Seq<char>) -> Seq<char>;

/// Whether `p` is a relative path of plain components: not empty, no leading or
/// trailing `/`, no empty component and no `.` component.
pub open spec fn plain_relative_path(p: Seq<char>) -> bool {
    &&& p.len() > 0
    &&& p[0] != '/'
    &&& p.last() != '/'
    &&& forall|i: int| 0 <= i < p.len() - 1 && #[trigger] p[i] == '/' ==> p[i + 1] != '/'
    &&& forall|i: int| 0 <= i < p.len() && #[trigger] p[i] == '.' ==> !((i == 0 || p[i - 1] == '/') && (i == p.len() - 1
        || p[i + 1] == '/'))
}

/// Whether `i` is the position of the last `/` in `p`.
pub open spec fn last_slash_at(p: Seq<char>, i: int) -> bool {
    &&& 0 <= i < p.len()
    &&& p[i] == '/'
    &&& forall|j: int| i < j < p.len() ==> p[j] != '/'
}

/// Calls `std::path::Path::parent` on `path`; the parent, as text, or `None`
/// where the path has none. As documented, the parent is the path without its
/// final component: for a plain relative path, the text before its last `/`, or
/// the empty path where it has a single component.
#[verifier::external_body]
fn parent_of(path: &str) -> (r: Option<String>)
    ensures
        opt_text(r) == path_parent(path@),
        plain_relative_path(path@) ==> forall|i: int| #[trigger] last_slash_at(path@, i) ==> opt_text(r) == Some(path@.take(i)),
        plain_relative_path(path@) && (forall|j: int| 0 <= j < path@.len() ==> path@[j] != '/')
            ==> opt_text(r) == Some(Seq::<char>::empty()),
{
    std::path::Path::new(path).parent().map(|p| p.to_string_lossy().into_owned())
}

/// Calls `std::path::Path::join`, extending `base` by `part`; the result as text.
/// As documented for Unix paths, an absolute `part` replaces `base`; a relative
/// one is appended after a separator, which is added only where `base` does not
/// end with one.
#[verifier::external_body]
fn join_path(base: &str, part: &str) -> (r: String)
    ensures
        r@ == path_join(base@, part@),
        part@.len() > 0 && part@[0] == '/' ==> r@ == part@,
        part@.len() > 0 && part@[0] != '/' && base@.len() > 0 && base@.last() != '/' ==> r@ == base@ + seq!['/'] + part@,
        part@.len() > 0 && part@[0] != '/' && base@.len() > 0 && base@.last() == '/' ==> r@ == base@ + part@,
{
    std::path::Path::new(base).join(part).to_string_lossy().into_owned()
}

/// The `include` directory beside the file `source_file`, if the file's path has a parent.
pub fn include_dir_of(source_file: &str) -> (r: Option<String>)
    ensures
        opt_text(r) == (match path_parent(source_file@) {
            Some(p) => Some(path_join(p, "include"@)),
            None => None::<Seq<char>>,
        }),
        plain_relative_path(source_file@) ==> forall|i: int| #[trigger] last_slash_at(source_file@, i)
            ==> opt_text(r) == Some(source_file@.take(i) + "/include"@),
{
    proof {
        reveal_strlit("include");
        reveal_strlit("/include");
    }
    match parent_of(source_file) {
        Some(p) => Some(join_path(p.as_str(), "include")),
        None => None,
    }
}

/// Returns the path of the C++ include directory, relative to the repository root:
/// the `include` directory beside the source file of the build helpers.
pub fn cpp_include_dir() -> (r: Option<String>)
    ensures
        opt_text(r) == Some("feo-cpp-build/src/include"@),
{
    proof {
        reveal_strlit("feo-cpp-build/src/lib.rs");
        reveal_strlit("feo-cpp-build/src/include");
        reveal_strlit("/include");
    }
    let r = include_dir_of("feo-cpp-build/src/lib.rs");
    let ghost p = "feo-cpp-build/src/lib.rs"@;
    assert(plain_relative_path(p));
    assert(last_slash_at(p, 17));
    assert(p.take(17) + "/include"@ =~= "feo-cpp-build/src/include"@);
    r
}

} // verus!
