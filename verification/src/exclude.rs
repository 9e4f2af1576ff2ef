//! The directories that a search never enters: build output, dependencies,
//! caches and the folders of tools.
use vstd::prelude::*;
use crate::text::{chars_equal, chars_of};

verus! {

/// The names of the directories that are always skipped.
pub open spec fn excluded_dirs() -> Seq<Seq<char>> {
    seq![
        "target"@,
        "build"@,
        "dist"@,
        "out"@,
        "bin"@,
        "obj"@,
        "node_modules"@,
        "vendor"@,
        "bower_components"@,
        "__pycache__"@,
        ".cache"@,
        ".parcel-cache"@,
        ".gradle"@,
        ".m2"@,
        ".next"@,
        ".nuxt"@,
        ".vitepress"@,
        ".docusaurus"@,
        ".output"@,
        ".serverless"@,
        ".idea"@,
        ".vscode"@,
        ".vs"@,
        ".obsidian"@,
        "tmp"@,
        "temp"@,
        "coverage"@,
        ".nyc_output"@,
        ".pytest_cache"@,
        ".tox"@,
    ]
}

/// Whether some component of a path is the name of a directory that is always
/// skipped.
pub open spec fn has_excluded_component(components: Seq<String>) -> bool {
    exists|i: int|
        0 <= i < components.len() && excluded_dirs().contains((#[trigger] components[i])@)
}

/// The names of the directories that are always skipped.
fn excluded_dir_names() -> (r: Vec<&'static str>)
    ensures
        r@.len() == excluded_dirs().len(),
        forall|i: int| 0 <= i < r@.len() ==> (#[trigger] r@[i])@ == excluded_dirs()[i],
{
    vec![
        "target",
        "build",
        "dist",
        "out",
        "bin",
        "obj",
        "node_modules",
        "vendor",
        "bower_components",
        "__pycache__",
        ".cache",
        ".parcel-cache",
        ".gradle",
        ".m2",
        ".next",
        ".nuxt",
        ".vitepress",
        ".docusaurus",
        ".output",
        ".serverless",
        ".idea",
        ".vscode",
        ".vs",
        ".obsidian",
        "tmp",
        "temp",
        "coverage",
        ".nyc_output",
        ".pytest_cache",
        ".tox",
    ]
}

/// Whether a directory of that name is always skipped. The name is compared
/// as it is, case and all.
pub fn is_excluded_dir(name: &str) -> (r: bool)
    ensures
        r == excluded_dirs().contains(name@),
{
    let wanted = chars_of(name);
    let names = excluded_dir_names();
    let n = names.len();
    let mut i: usize = 0;
    while i < n
        invariant
            i <= n,
            n == names.len(),
            n == excluded_dirs().len(),
            wanted@ == name@,
            forall|k: int| 0 <= k < n ==> (#[trigger] names@[k])@ == excluded_dirs()[k],
            forall|k: int| 0 <= k < i ==> excluded_dirs()[k] != name@,
        decreases n - i,
    {
        if chars_equal(&chars_of(names[i]), &wanted) {
            assert(excluded_dirs()[i as int] == name@);
            return true;
        }
        i += 1;
    }
    false
}

/// Whether a path with these components lies in a directory that is always
/// skipped.
pub fn should_skip(components: &Vec<String>) -> (r: bool)
    ensures
        r == has_excluded_component(components@),
{
    let n = components.len();
    let mut i: usize = 0;
    while i < n
        invariant
            i <= n,
            n == components.len(),
            forall|k: int| 0 <= k < i ==> !excluded_dirs().contains((#[trigger] components@[k])@),
        decreases n - i,
    {
        if is_excluded_dir(components[i].as_str()) {
            return true;
        }
        i += 1;
    }
    false
}

} // verus!
