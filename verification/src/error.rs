//! The error values returned by the plugin host.
//!
//! Every failing operation of this crate returns an [`Error`], which wraps an
//! [`ErrorKind`]. Contracts speak of errors through their views, in which each
//! text is a sequence of characters.

use vstd::prelude::*;
use vstd::string::*;
use libloading::Error as LoaderError;

verus! {

/// The failure value of the system's dynamic loader. Its contents are opaque
/// to the proofs: the host only carries it from the failing call to the caller.
#[verifier::external_type_specification]
#[verifier::external_body]
pub struct ExLoaderError(LoaderError);

/// The underlying reason carried by an error.
#[derive(Debug)]
pub enum Cause {
    /// The dynamic loader failed.
    Loader(LoaderError),
    /// A plugin library reported the failure, in its own words.
    Reported(String),
}

/// The mathematical value of a [`Cause`].
pub enum CauseView {
    Loader(LoaderError),
    Reported(Seq<char>),
}

impl View for Cause {
    type V = CauseView;

    open spec fn view(&self) -> CauseView {
        match *self {
            Cause::Loader(e) => CauseView::Loader(e),
            Cause::Reported(s) => CauseView::Reported(s@),
        }
    }
}

/// Errors returned by functions and methods in this crate.
#[derive(Debug)]
pub enum ErrorKind {
    /// Failed to open the dynamic library: the library path, then the cause.
    LibraryOpenFailed(String, Cause),
    /// Failed to close the dynamic library: the library path, then the cause.
    LibraryCloseFailed(String, Cause),
    /// Failed to find a symbol: the symbol name, the library path, the cause.
    SymbolNotFound(String, String, Cause),
    /// The plugin host and the library at this path are incompatible.
    IncompatibleLibraryVersion(String),
    /// The plugin library reported an error while registering its plugins.
    PluginRegistration(Cause),
    /// The configuration has no entry for this plugin type identifier.
    UnknownPluginManagerType(String),
}

/// The mathematical value of an [`ErrorKind`].
pub enum ErrorKindView {
    LibraryOpenFailed(Seq<char>, CauseView),
    LibraryCloseFailed(Seq<char>, CauseView),
    SymbolNotFound(Seq<char>, Seq<char>, CauseView),
    IncompatibleLibraryVersion(Seq<char>),
    PluginRegistration(CauseView),
    UnknownPluginManagerType(Seq<char>),
}

impl View for ErrorKind {
    type V = ErrorKindView;

    open spec fn view(&self) -> ErrorKindView {
        match *self {
            ErrorKind::LibraryOpenFailed(path, cause) => ErrorKindView::LibraryOpenFailed(
                path@,
                cause@,
            ),
            ErrorKind::LibraryCloseFailed(path, cause) => ErrorKindView::LibraryCloseFailed(
                path@,
                cause@,
            ),
            ErrorKind::SymbolNotFound(symbol, path, cause) => ErrorKindView::SymbolNotFound(
                symbol@,
                path@,
                cause@,
            ),
            ErrorKind::IncompatibleLibraryVersion(path) => ErrorKindView::IncompatibleLibraryVersion(
                path@,
            ),
            ErrorKind::PluginRegistration(cause) => ErrorKindView::PluginRegistration(cause@),
            ErrorKind::UnknownPluginManagerType(plugin_type) => ErrorKindView::UnknownPluginManagerType(
                plugin_type@,
            ),
        }
    }
}

/// The error type of this crate: an [`ErrorKind`] behind one name.
#[derive(Debug)]
pub struct Error(pub ErrorKind);

impl View for Error {
    type V = ErrorKindView;

    open spec fn view(&self) -> ErrorKindView {
        self.0@
    }
}

impl From<ErrorKind> for Error {
    fn from(v: ErrorKind) -> (r: Error)
        ensures
            r.0 == v,
    {
        Error(v)
    }
}

impl vstd::std_specs::convert::FromSpecImpl<ErrorKind> for Error {
    open spec fn obeys_from_spec() -> bool {
        true
    }

    open spec fn from_spec(v: ErrorKind) -> Error {
        Error(v)
    }
}

/// The text that stands for a cause in a message: what the plugin library
/// reported, or `loader_text` where the dynamic loader failed.
pub open spec fn cause_text(cause: CauseView, loader_text: Seq<char>) -> Seq<char> {
    match cause {
        CauseView::Loader(_) => loader_text,
        CauseView::Reported(text) => text,
    }
}

/// The message of an error, given the loader's description of its own failure.
pub open spec fn message_text(kind: ErrorKindView, loader_text: Seq<char>) -> Seq<char> {
    match kind {
        ErrorKindView::LibraryOpenFailed(path, cause) => "Library '"@ + path
            + "' failed to close; error: '"@ + cause_text(cause, loader_text) + "'"@,
        ErrorKindView::LibraryCloseFailed(path, cause) => "Library '"@ + path
            + "' failed to close; error: '"@ + cause_text(cause, loader_text) + "'"@,
        ErrorKindView::SymbolNotFound(symbol, path, _) => "Could not find symbol '"@ + symbol
            + "' in library '"@ + path + "'"@,
        ErrorKindView::IncompatibleLibraryVersion(path) => "Library '"@ + path
            + "' has incompatible version"@,
        ErrorKindView::PluginRegistration(cause) => "Plugin(s) failed to register; error: '"@
            + cause_text(cause, loader_text) + "'"@,
        ErrorKindView::UnknownPluginManagerType(plugin_type) => "No Configured plugins for type '"@
            + plugin_type + "'"@,
    }
}

/// The cause that an error of this kind exposes as its source, if any.
pub open spec fn source_of(kind: ErrorKindView) -> Option<CauseView> {
    match kind {
        ErrorKindView::LibraryOpenFailed(_, cause) => Some(cause),
        ErrorKindView::LibraryCloseFailed(_, cause) => Some(cause),
        ErrorKindView::PluginRegistration(cause) => Some(cause),
        _ => None,
    }
}

/// The loader's description of the failure that `error` stands for.
pub uninterp spec fn loader_description(error: LoaderError) -> Seq<char>;

/// The text of a cause: what the plugin library reported, or the loader's
/// description of its failure.
pub open spec fn described(cause: CauseView) -> Seq<char> {
    match cause {
        CauseView::Loader(error) => loader_description(error),
        CauseView::Reported(text) => text,
    }
}

/// The loader's description that the message of an error of this kind
/// shows: that of the loader failure that is its source, or nothing.
pub open spec fn shown_description(kind: ErrorKindView) -> Seq<char> {
    match source_of(kind) {
        Some(CauseView::Loader(error)) => loader_description(error),
        _ => Seq::empty(),
    }
}

/// `Display` of `libloading::Error`: the loader's description of its failure.
/// The text is made from the error value alone: what the system reported
/// when the failure happened is part of that value.
#[verifier::external_body]
fn loader_text(error: &LoaderError) -> (text: String)
    ensures
        text@ == loader_description(*error),
{
    format!("{}", error)
}

impl Cause {
    /// The text of this cause, where `loader_text` describes a loader failure.
    pub fn text_with(&self, loader_text: &str) -> (r: String)
        ensures
            r@ == cause_text(self@, loader_text@),
    {
        match self {
            Cause::Loader(_) => String::from_str(loader_text),
            Cause::Reported(text) => text.clone(),
        }
    }

    /// The text of this cause. What a plugin library reported is returned as
    /// it is; a loader failure is described by the loader itself.
    pub fn text(&self) -> (r: String)
        ensures
            r@ == described(self@),
    {
        match self {
            Cause::Loader(error) => loader_text(error),
            Cause::Reported(text) => text.clone(),
        }
    }
}

/// `first`, `middle` and `last` in one string.
fn join3(first: &str, middle: &str, last: &str) -> (r: String)
    ensures
        r@ == first@ + middle@ + last@,
{
    let mut r = String::from_str(first);
    r.append(middle);
    r.append(last);
    r
}

/// Five pieces in one string.
fn join5(first: &str, second: &str, third: &str, fourth: &str, last: &str) -> (r: String)
    ensures
        r@ == first@ + second@ + third@ + fourth@ + last@,
{
    let mut r = join3(first, second, third);
    r.append(fourth);
    r.append(last);
    r
}

impl ErrorKind {
    /// The message of this error, where `loader_text` describes a loader
    /// failure that the error carries.
    pub fn message_with(&self, loader_text: &str) -> (r: String)
        ensures
            r@ == message_text(self@, loader_text@),
    {
        match self {
            ErrorKind::LibraryOpenFailed(path, cause) => {
                let shown = cause.text_with(loader_text);
                join5("Library '", path.as_str(), "' failed to close; error: '", shown.as_str(), "'")
            },
            ErrorKind::LibraryCloseFailed(path, cause) => {
                let shown = cause.text_with(loader_text);
                join5("Library '", path.as_str(), "' failed to close; error: '", shown.as_str(), "'")
            },
            ErrorKind::SymbolNotFound(symbol, path, _) => join5(
                "Could not find symbol '",
                symbol.as_str(),
                "' in library '",
                path.as_str(),
                "'",
            ),
            ErrorKind::IncompatibleLibraryVersion(path) => join3(
                "Library '",
                path.as_str(),
                "' has incompatible version",
            ),
            ErrorKind::PluginRegistration(cause) => {
                let shown = cause.text_with(loader_text);
                join3("Plugin(s) failed to register; error: '", shown.as_str(), "'")
            },
            ErrorKind::UnknownPluginManagerType(plugin_type) => join3(
                "No Configured plugins for type '",
                plugin_type.as_str(),
                "'",
            ),
        }
    }

    /// The cause that this error exposes as its source: that of a library
    /// that failed to open or to close, and that of a failed registration.
    pub fn source(&self) -> (r: Option<&Cause>)
        ensures
            match r {
                Some(cause) => source_of(self@) == Some(cause@),
                None => source_of(self@).is_none(),
            },
    {
        match self {
            ErrorKind::LibraryOpenFailed(_, cause) => Some(cause),
            ErrorKind::LibraryCloseFailed(_, cause) => Some(cause),
            ErrorKind::PluginRegistration(cause) => Some(cause),
            _ => None,
        }
    }

    /// The message of this error, in which a loader failure that is its
    /// source is described by the loader itself.
    pub fn message(&self) -> (r: String)
        ensures
            r@ == message_text(self@, shown_description(self@)),
    {
        let described = match self.source() {
            Some(Cause::Loader(error)) => loader_text(error),
            _ => String::new(),
        };
        self.message_with(described.as_str())
    }
}

impl Error {
    /// The kind of this error.
    pub fn kind(&self) -> (r: &ErrorKind)
        ensures
            *r == self.0,
    {
        &self.0
    }

    /// The message of this error: that of its kind.
    pub fn message(&self) -> (r: String)
        ensures
            r@ == message_text(self@, shown_description(self@)),
    {
        self.0.message()
    }

    /// The cause that this error exposes as its source, if any.
    pub fn source(&self) -> (r: Option<&Cause>)
        ensures
            match r {
                Some(cause) => source_of(self@) == Some(cause@),
                None => source_of(self@).is_none(),
            },
    {
        self.0.source()
    }
}

} // verus!
