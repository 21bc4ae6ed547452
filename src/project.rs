use vstd::prelude::*;
use vstd::string::StringExecFns;

use crate::quota::texts;
use crate::text::same_text;

verus! {

/// A package of the workspace: the directory that holds its manifest, and its name.
#[derive(Clone, Debug, PartialEq, Eq)]
pub struct PackageEntry {
    pub manifest_dir: String,
    pub name: String,
}

/// The components that `std::path::Path::components` yields for path `p`,
/// each as text. They follow the path rules of the build target (separators
/// and prefixes differ between Unix and Windows).
pub uninterp spec fn path_components(p: Seq<char>) -> Seq<Seq<char>>;

/// Relies on std::path::Path::components: the path's components, with
/// repeated separators and `.` in the middle dropped.
#[verifier::external_body]
fn components_of(p: &str) -> (r: Vec<String>)
    ensures
        texts(r@) == path_components(p@),
{
    std::path::Path::new(p).components().map(|c| c.as_os_str().to_string_lossy().into_owned()).collect()
}

/// Whether two paths name the same place by their components (so `a/b` and
/// `a//b/` agree).
pub fn same_file_path(a: &str, b: &str) -> (r: bool)
    ensures
        r == (path_components(a@) == path_components(b@)),
{
    let ca = components_of(a);
    let cb = components_of(b);
    if ca.len() != cb.len() {
        assert(texts(ca@).len() != texts(cb@).len());
        return false;
    }
    let mut i: usize = 0;
    while i < ca.len()
        invariant
            i <= ca@.len(),
            ca@.len() == cb@.len(),
            texts(ca@) == path_components(a@),
            texts(cb@) == path_components(b@),
            forall|j: int| 0 <= j < i ==> ca@[j]@ == cb@[j]@,
        decreases ca@.len() - i,
    {
        if !same_text(ca[i].as_str(), cb[i].as_str()) {
            assert(texts(ca@)[i as int] == ca@[i as int]@);
            assert(texts(cb@)[i as int] == cb@[i as int]@);
            assert(texts(ca@) != texts(cb@));
            return false;
        }
        i += 1;
    }
    assert(texts(ca@) =~= texts(cb@));
    true
}

/// `i` is the first package whose manifest directory is `dir`.
pub open spec fn first_package_in(packages: Seq<PackageEntry>, dir: Seq<char>, i: int) -> bool {
    &&& 0 <= i < packages.len()
    &&& path_components(packages[i].manifest_dir@) == path_components(dir)
    &&& forall|j: int|
        0 <= j < i ==> path_components(#[trigger] packages[j].manifest_dir@) != path_components(dir)
}

/// The name of the first package whose manifest lies in `current_dir`.
pub fn package_for_dir(packages: &Vec<PackageEntry>, current_dir: &str) -> (r: Option<String>)
    ensures
        r is None ==> forall|j: int|
            0 <= j < packages@.len() ==> path_components(#[trigger] packages@[j].manifest_dir@)
                != path_components(current_dir@),
        r matches Some(n) ==> exists|i: int|
            first_package_in(packages@, current_dir@, i) && n@ == packages@[i].name@,
{
    let mut i: usize = 0;
    while i < packages.len()
        invariant
            i <= packages@.len(),
            forall|j: int|
                0 <= j < i ==> path_components(#[trigger] packages@[j].manifest_dir@)
                    != path_components(current_dir@),
        decreases packages@.len() - i,
    {
        if same_file_path(packages[i].manifest_dir.as_str(), current_dir) {
            let name = packages[i].name.clone();
            assert(first_package_in(packages@, current_dir@, i as int));
            return Some(name);
        }
        i += 1;
    }
    None
}

/// The package name with each `-` written `_`, as the compiler names artifacts.
pub open spec fn crate_name_of(s: Seq<char>) -> Seq<char> {
    s.map_values(|c: char| if c == '-' { '_' } else { c })
}

/// The file name of the compiled component of package `package_name`.
pub fn wasm_file_name(package_name: &str) -> (r: String)
    ensures
        r@ == crate_name_of(package_name@) + ".wasm"@,
{
    let n = package_name.unicode_len();
    let mut out = String::new();
    let mut i: usize = 0;
    while i < n
        invariant
            i <= n,
            n == package_name@.len(),
            out@ == crate_name_of(package_name@.take(i as int)),
        decreases n - i,
    {
        let ghost before = out@;
        let c = package_name.get_char(i);
        if c == '-' {
            proof {
                reveal_strlit("_");
            }
            out.append("_");
        } else {
            out.append(package_name.substring_char(i, i + 1));
        }
        assert(out@ =~= crate_name_of(package_name@.take(i + 1)));
        i += 1;
    }
    assert(package_name@.take(n as int) =~= package_name@);
    out.append(".wasm");
    out
}

} // verus!
