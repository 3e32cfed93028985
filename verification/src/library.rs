//! An opened dynamic library and the path it was opened from.
//!
//! Opening a library and resolving a symbol in it are the host program's
//! part: it hands their outcome to the functions of this module, which turn
//! it into a [`LoadedLibrary`] or into the error that the failure stands for.

use crate::error::{Cause, CauseView, Error, ErrorKind, ErrorKindView};
use libloading::Error as LoaderError;
use libloading::Library;
use vstd::prelude::*;

verus! {

/// The handle of an opened dynamic library. Its contents are opaque to the
/// proofs, which only track where each handle goes.
#[verifier::external_type_specification]
#[verifier::external_body]
pub struct ExLibrary(Library);

/// One successfully opened native module.
#[derive(Debug)]
pub struct LoadedLibrary {
    file_name: String,
    library: Library,
}

/// `Library::close`: unloads the library. Whether the system reports a
/// failure is not known beforehand, so nothing is claimed of the result.
#[verifier::external_body]
fn close_library(library: Library) -> (r: Result<(), LoaderError>) {
    library.close()
}

/// What opening the library at `path` amounts to, given what the loader
/// returned: the library, or `LibraryOpenFailed` with the path and the
/// loader's error.
pub fn open_outcome(path: String, opened: Result<Library, LoaderError>) -> (r: Result<
    LoadedLibrary,
    Error,
>)
    ensures
        match opened {
            Ok(library) => r matches Ok(loaded) && loaded.path() == path@ && loaded.handle()
                == library,
            Err(e) => r matches Err(error) && error@ == ErrorKindView::LibraryOpenFailed(
                path@,
                CauseView::Loader(e),
            ),
        },
{
    match opened {
        Ok(library) => Ok(LoadedLibrary { file_name: path, library }),
        Err(e) => Err(Error(ErrorKind::LibraryOpenFailed(path, Cause::Loader(e)))),
    }
}

/// What closing the library opened from `path` amounts to, given what the
/// loader returned: success, or `LibraryCloseFailed` with the path and the
/// loader's error.
pub fn close_outcome(path: String, closed: Result<(), LoaderError>) -> (r: Result<(), Error>)
    ensures
        match closed {
            Ok(_) => r.is_ok(),
            Err(e) => r matches Err(error) && error@ == ErrorKindView::LibraryCloseFailed(
                path@,
                CauseView::Loader(e),
            ),
        },
{
    match closed {
        Ok(_) => Ok(()),
        Err(e) => Err(Error(ErrorKind::LibraryCloseFailed(path, Cause::Loader(e)))),
    }
}

impl LoadedLibrary {
    /// The path that the library was opened from.
    pub closed spec fn path(&self) -> Seq<char> {
        self.file_name@
    }

    /// The native handle of the library.
    pub closed spec fn handle(&self) -> Library {
        self.library
    }

    /// The path that the library was opened from.
    pub fn file_name(&self) -> (r: &String)
        ensures
            r@ == self.path(),
    {
        &self.file_name
    }

    /// The native handle, for resolving symbols in the library.
    pub fn library(&self) -> (r: &Library)
        ensures
            *r == self.handle(),
    {
        &self.library
    }

    /// Close the library and free its resources. A failure of the loader
    /// comes back as `LibraryCloseFailed` with this library's path.
    pub fn close(self) -> (r: Result<(), Error>)
        ensures
            r matches Err(error) ==> error@ matches ErrorKindView::LibraryCloseFailed(
                path,
                CauseView::Loader(_),
            ) && path == self.path(),
    {
        let closed = close_library(self.library);
        close_outcome(self.file_name, closed)
    }
}

/// An opened library whose fingerprint is the host's. Only the plugin
/// manager makes one, when it has compared the fingerprints, and only such
/// a library registers plugins with it.
#[derive(Debug)]
pub struct CompatibleLibrary {
    library: LoadedLibrary,
}

impl CompatibleLibrary {
    /// The library that was found compatible.
    pub closed spec fn loaded(&self) -> LoadedLibrary {
        self.library
    }

    /// The library, now that it was found compatible.
    pub(crate) fn new(library: LoadedLibrary) -> (r: Self)
        ensures
            r.loaded() == library,
    {
        CompatibleLibrary { library }
    }

    /// The library, to keep or to close.
    pub(crate) fn into_loaded(self) -> (r: LoadedLibrary)
        ensures
            r == self.loaded(),
    {
        self.library
    }

    /// The path that the library was opened from.
    pub fn file_name(&self) -> (r: &String)
        ensures
            r@ == self.loaded().path(),
    {
        self.library.file_name()
    }

    /// The native handle, for resolving the registration function.
    pub fn library(&self) -> (r: &Library)
        ensures
            *r == self.loaded().handle(),
    {
        self.library.library()
    }
}

} // verus!
