//! Which dropped file the pet imports.
use crate::text::{ascii_lower_seq, chars_of, ends_with_chars, ends_with_seq, lower_chars};
use vstd::prelude::*;

verus! {

/// `Path::file_name` of a path, as text: `None` when the path ends in `..`,
/// is a root, or is empty. What else it decides is std's.
pub uninterp spec fn path_file_name(path: Seq<char>) -> Option<Seq<char>>;

/// `Path::is_absolute` of a path; the rule is the platform's.
pub uninterp spec fn path_is_absolute(path: Seq<char>) -> bool;

/// Calls `Path::file_name` and takes the name as text. The contract names the
/// result only; std decides how the path's components are read.
#[verifier::external_body]
fn file_name_of(path: &str) -> (r: Option<&str>)
    ensures
        r matches Some(n) ==> path_file_name(path@) == Some(n@),
        r is None ==> path_file_name(path@) is None,
{
    match std::path::Path::new(path).file_name() {
        Some(name) => name.to_str(),
        None => None,
    }
}

/// Calls `Path::is_absolute`. The contract names the result only.
#[verifier::external_body]
fn is_absolute_path(path: &str) -> (r: bool)
    ensures
        r == path_is_absolute(path@),
{
    std::path::Path::new(path).is_absolute()
}

/// A file name the importer accepts, compared without regard to ASCII case.
pub open spec fn supported_name(name: Seq<char>) -> bool {
    let lower = ascii_lower_seq(name);
    ends_with_seq(lower, ".gcode.3mf"@) || ends_with_seq(lower, ".3mf"@) || ends_with_seq(
        lower,
        ".gcode"@,
    )
}

pub open spec fn supported_print_path(path: Seq<char>) -> bool {
    match path_file_name(path) {
        Some(name) => supported_name(name),
        None => false,
    }
}

/// A dropped item: its path and whether it is a regular file.
#[derive(Debug, Clone, PartialEq, Eq)]
pub struct DropFile {
    path: String,
    is_regular_file: bool,
}

impl DropFile {
    pub closed spec fn path_text(&self) -> Seq<char> {
        self.path@
    }

    pub closed spec fn regular(&self) -> bool {
        self.is_regular_file
    }

    pub fn new(path: &str, is_regular_file: bool) -> (r: Self)
        ensures
            r.path_text() == path@,
            r.regular() == is_regular_file,
    {
        DropFile { path: path.to_owned(), is_regular_file }
    }

    pub fn path(&self) -> (r: &str)
        ensures
            r@ == self.path_text(),
    {
        self.path.as_str()
    }

    pub fn is_regular_file(&self) -> (r: bool)
        ensures
            r == self.regular(),
    {
        self.is_regular_file
    }
}

/// Whether the file name of `path` ends in `.gcode.3mf`, `.3mf` or `.gcode`, in any ASCII case.
pub fn is_supported_print_path(path: &str) -> (r: bool)
    ensures
        r == supported_print_path(path@),
{
    match file_name_of(path) {
        None => false,
        Some(name) => {
            let lower = lower_chars(name);
            ends_with_chars(&lower, &chars_of(".gcode.3mf")) || ends_with_chars(
                &lower,
                &chars_of(".3mf"),
            ) || ends_with_chars(&lower, &chars_of(".gcode"))
        },
    }
}

pub open spec fn importable(f: DropFile) -> bool {
    f.regular() && path_is_absolute(f.path_text()) && supported_print_path(f.path_text())
}

/// The index of the first importable item at or after `i`.
pub open spec fn first_importable_from(files: Seq<DropFile>, i: int) -> Option<int>
    decreases files.len() - i,
{
    if i < 0 || i >= files.len() {
        None
    } else if importable(files[i]) {
        Some(i)
    } else {
        first_importable_from(files, i + 1)
    }
}

/// The path of the first dropped item that is a regular file with an
/// absolute, supported path; later items are never looked at as a fallback.
pub fn first_supported_drop(files: &[DropFile]) -> (r: Option<&str>)
    ensures
        r matches Some(p) ==> (first_importable_from(files@, 0) matches Some(k) && p@
            == files@[k].path_text()),
        r is None ==> first_importable_from(files@, 0) is None,
{
    let mut i: usize = 0;
    while i < files.len()
        invariant
            i <= files@.len(),
            first_importable_from(files@, 0) == first_importable_from(files@, i as int),
        decreases files.len() - i,
    {
        let file = &files[i];
        if file.is_regular_file() && is_absolute_path(file.path()) && is_supported_print_path(
            file.path(),
        ) {
            return Some(file.path());
        }
        i = i + 1;
    }
    None
}

} // verus!
