//! The search path that bare library names are resolved with.

use search_path::SearchPath;
use vstd::prelude::*;

verus! {

/// The ordered list of directories in which libraries are searched.
#[verifier::external_type_specification]
#[verifier::external_body]
pub struct ExSearchPath(SearchPath);

/// The directories of a search path, in the order in which they are tried.
pub uninterp spec fn search_directories(search_path: SearchPath) -> Seq<Seq<char>>;

/// `SearchPath::is_empty`: whether the search path holds no directory.
#[verifier::external_body]
pub(crate) fn search_path_is_empty(search_path: &SearchPath) -> (r: bool)
    ensures
        r == (search_directories(*search_path).len() == 0),
{
    search_path.is_empty()
}

/// `SearchPath::default`: the search path that holds no directory.
#[verifier::external_body]
pub(crate) fn empty_search_path() -> (r: SearchPath)
    ensures
        search_directories(r).len() == 0,
{
    SearchPath::default()
}

/// `SearchPath::find_file`: the first file of that name in the directories
/// of the search path, as text. Which files exist is the file system's
/// matter; a search path without directories finds none.
#[verifier::external_body]
pub(crate) fn search_path_find_file(search_path: &SearchPath, file_name: &str) -> (r: Option<String>)
    ensures
        search_directories(*search_path).len() == 0 ==> r.is_none(),
{
    search_path.find_file(file_name.as_ref()).map(|p| p.to_string_lossy().to_string())
}

} // verus!
