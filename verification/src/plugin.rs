//! The components required to define a plugin API: the [`Plugin`] trait that
//! every plugin type implements, the [`PluginRegistrar`] handed to a library's
//! registration function, and the compatibility fingerprint that host and
//! library compare before any other call crosses the boundary.

use crate::error::{Cause, CauseView, Error};
use std::collections::hash_map::DefaultHasher;
use std::hash::{Hash, Hasher};
use vstd::std_specs::hash::DefaultHasherAdditionalSpecFns;
use std::sync::Arc;
use vstd::prelude::*;

verus! {

/// The name of the registration function that a plugin library exports,
/// unless the plugin manager was given another.
pub const PLUGIN_REGISTRATION_FN_NAME: &'static str = "register_plugins\0";

/// The name of the function by which a plugin library exports its fingerprint.
pub const COMPATIBILITY_FN_NAME: &'static str = "compatibility_hash\0";

/// The version of this package, the first half of the build identity that a
/// plugin manager has until the host gives it another.
pub const PACKAGE_VERSION: &'static str = "0.1.0";

/// The toolchain version of the build identity that a plugin manager has
/// until the host gives it another.
pub const TOOLCHAIN_VERSION: &'static str = "unknown";

/// A plugin: it names itself, and is told when it was loaded and when it is
/// about to go.
pub trait Plugin: std::fmt::Debug + Sync + Send {
    /// The identifier of this plugin: a function of the plugin, so that it
    /// never changes. A plugin type may say which function it is.
    open spec fn id(&self) -> Seq<char> {
        (arbitrary::<spec_fn(&Self) -> Seq<char>>())(self)
    }

    /// Return the plugin identifier for this instance.
    fn plugin_id(&self) -> (r: &String)
        ensures
            r@ == self.id(),
    ;

    /// Called by the plugin manager once registration is complete.
    fn on_load(&self) -> Result<(), Error>;

    /// Called by the plugin manager once the plugin has left the directory,
    /// before its library is closed.
    fn on_unload(&self) -> Result<(), Error>;
}

/// What the hasher has been fed once `text` is hashed into a hasher that had
/// been fed `written` before.
pub uninterp spec fn hashed_text(written: Seq<Seq<u8>>, text: Seq<char>) -> Seq<Seq<u8>>;

/// `Hash::hash` of `str`: feeds `text` to the hasher. What the hasher holds
/// afterwards is a function of what it held and of the text.
#[verifier::external_body]
fn hash_text(state: &mut DefaultHasher, text: &str)
    ensures
        final(state)@ == hashed_text(old(state)@, text@),
{
    text.hash(state)
}

/// The fingerprint of a build identity: the hash of the package version
/// followed by the toolchain version.
pub open spec fn fingerprint(package_version: Seq<char>, toolchain_version: Seq<char>) -> u64 {
    DefaultHasher::spec_finish(
        hashed_text(hashed_text(Seq::empty(), package_version), toolchain_version),
    )
}

/// The compatibility fingerprint of a build with this package version and
/// this toolchain version. A host and a library are compatible when their
/// fingerprints are equal.
pub fn compatibility_hash(package_version: &str, toolchain_version: &str) -> (r: u64)
    ensures
        r == fingerprint(package_version@, toolchain_version@),
{
    let mut s = DefaultHasher::new();
    hash_text(&mut s, package_version);
    hash_text(&mut s, toolchain_version);
    s.finish()
}

/// A registrar is created by a plugin manager and handed to the library's
/// registration function, which registers its plugins with it or reports
/// that it cannot.
#[derive(Debug)]
pub struct PluginRegistrar<T: Plugin> {
    plugins: Vec<Arc<T>>,
    error: Option<Cause>,
}

impl<T: Plugin> PluginRegistrar<T> {
    /// The plugins collected so far, in the order of their registration.
    pub closed spec fn registered(&self) -> Seq<Arc<T>> {
        self.plugins@
    }

    /// The failure that the library reported, if it reported one.
    pub closed spec fn failure(&self) -> Option<CauseView> {
        match self.error {
            Some(cause) => Some(cause@),
            None => None,
        }
    }

    /// A registrar that holds no plugin and no error.
    pub fn default() -> (r: Self)
        ensures
            r.registered() == Seq::<Arc<T>>::empty(),
            r.failure().is_none(),
    {
        PluginRegistrar { plugins: Vec::new(), error: None }
    }

    /// Register a plugin. It is kept until the registration function
    /// returns; once an error was reported, the plugin is dropped instead.
    pub fn register(&mut self, plugin: T)
        ensures
            final(self).failure() == old(self).failure(),
            old(self).failure().is_none() ==> final(self).registered() == old(
                self,
            ).registered().push(Arc::new(plugin)),
            old(self).failure().is_some() ==> final(self).registered() == old(self).registered(),
    {
        if self.error.is_none() {
            self.plugins.push(Arc::new(plugin));
        }
    }

    /// Report an error. Of several errors the last one is kept.
    pub fn error(&mut self, error: Cause)
        ensures
            final(self).failure() == Some(error@),
            final(self).registered() == old(self).registered(),
    {
        self.error = Some(error);
    }

    /// The outcome of the registration: the error if one was reported, else
    /// the plugins in the order of their registration.
    pub fn plugins(self) -> (r: Result<Vec<Arc<T>>, Cause>)
        ensures
            match r {
                Ok(plugins) => self.failure().is_none() && plugins@ == self.registered(),
                Err(cause) => self.failure() == Some(cause@),
            },
    {
        match self.error {
            None => Ok(self.plugins),
            Some(error) => Err(error),
        }
    }
}

} // verus!
