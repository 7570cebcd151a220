use vstd::prelude::*;
use crate::chars::eq_str;

verus! {

/// The extension of the file that a path names: what follows the last `.` of its file name,
/// if the name has one that does not start it.
pub uninterp spec fn extension_of(path: Seq<char>) -> Option<Seq<char>>;

/// Relies on `std::path::Path::extension`: the extension of the path's file name, if any.
#[verifier::external_body]
fn path_extension(path: &str) -> (r: Option<String>)
    ensures
        match extension_of(path@) {
            Some(e) => r matches Some(s) && s@ == e,
            None => r is None,
        },
{
    std::path::Path::new(path).extension().map(|e| e.to_string_lossy().into_owned())
}

/// A run of the language's tools over source files.
pub struct Lithium {
    pub had_error: bool,
}

impl Lithium {
    /// A run that has seen no error yet.
    pub fn new() -> (r: Lithium)
        ensures
            !r.had_error,
    {
        Lithium { had_error: false }
    }

    /// Whether `file_path` may be run: it must name an existing file (`exists`, which the
    /// caller finds out) with the `.lt` extension.
    pub fn is_valid_file(&self, file_path: &str, exists: bool) -> (r: Result<(), &'static str>)
        ensures
            r is Ok <==> exists && extension_of(file_path@) == Some("lt"@),
            !exists ==> r == Err::<(), &'static str>("The file does not exist."),
            exists && extension_of(file_path@) != Some("lt"@) ==> r == Err::<(), &'static str>(
                "The file is not a valid Lithium file.",
            ),
    {
        if !exists {
            return Err("The file does not exist.");
        }
        match path_extension(file_path) {
            Some(e) => {
                if eq_str(e.as_str(), "lt") {
                    Ok(())
                } else {
                    Err("The file is not a valid Lithium file.")
                }
            },
            None => Err("The file is not a valid Lithium file."),
        }
    }
}

} // verus!
