//! The components required by a plugin host to load and unload plugins.
//!
//! The [`PluginManager`] keeps the directory of loaded plugins and the
//! libraries that they came from. Loading a library goes through a fixed
//! sequence of steps, each of which takes the outcome of one call into the
//! system's loader: the host program resolves a path with
//! [`PluginManager::library_path`], opens the library and hands the outcome
//! to [`open_outcome`](crate::library::open_outcome), calls the library's compatibility
//! function and hands the outcome to [`PluginManager::check_compatibility`],
//! then calls its registration function with a fresh registrar and hands the
//! outcome to [`PluginManager::register_plugins`].
//!
//! Unloading a plugin closes its library once no record of the directory
//! points at it. A plugin that a caller got from [`PluginManager::get`] and
//! still holds when its record leaves keeps the library from being closed:
//! the manager keeps the record aside, asks at every later unloading
//! whether the plugin is still held, and closes the library once it is
//! not.
//!
//! The manager has no lock of its own. Loading and unloading take it by
//! `&mut`, so they exclude each other and every reader; a host that shares
//! one manager between threads keeps it behind a readers-writer lock.

use crate::directory::{
    close_failure, free_slot, has_id, ids_distinct, index_of, installed, installed_one,
    law_installed_plugins_are_found, lemma_fewer_records, lemma_free_slot, lemma_index_of,
    lemma_installed_one, lemma_left_earlier, lemma_nothing_released, lemma_one_released,
    lemma_referenced_in_both, lemma_released_twice, library_gone, library_left, placed,
    points_at_open, referenced, released, slot_holds, slots_within, unload_result, LoadedPlugin,
};
use crate::error::{Cause, CauseView, Error, ErrorKind, ErrorKindView};
use crate::library::{CompatibleLibrary, LoadedLibrary};
use crate::names::{bare_name, is_bare_name, resolved_path};
use crate::plugin::{
    compatibility_hash, fingerprint, Plugin, PluginRegistrar, COMPATIBILITY_FN_NAME,
    PACKAGE_VERSION, PLUGIN_REGISTRATION_FN_NAME, TOOLCHAIN_VERSION,
};
use crate::search::{
    empty_search_path, search_directories, search_path_find_file, search_path_is_empty,
};
use libloading::Error as LoaderError;
use search_path::SearchPath;
use std::sync::Arc;
use vstd::prelude::*;
use vstd::slice::slice_to_vec;
use vstd::string::*;
use vstd::utf8::*;

verus! {

/// `String::from_utf8`: the text that the bytes encode, where they are
/// valid UTF-8, and nothing where they are not.
#[verifier::external_body]
fn text_of(bytes: Vec<u8>) -> (r: Option<String>)
    ensures
        r.is_some() == valid_utf8(bytes@),
        r matches Some(text) ==> text@ == decode_utf8(bytes@),
{
    String::from_utf8(bytes).ok()
}

/// `Arc::strong_count`: the number of holders of the plugin, the one that
/// asks among them. Holders elsewhere come and go, so no more is claimed.
#[verifier::external_body]
fn holders<T: Plugin>(plugin: &Arc<T>) -> (n: usize)
    ensures
        n >= 1,
{
    Arc::strong_count(plugin)
}

/// The plugin manager loads and unloads plugins from libraries, which it
/// keeps open for as long as a plugin of the directory came from them or a
/// plugin that left the directory is still held elsewhere.
#[derive(Debug)]
pub struct PluginManager<T: Plugin> {
    search_path: SearchPath,
    registration_fn_name: Vec<u8>,
    fingerprint: u64,
    plugins: Vec<LoadedPlugin<T>>,
    libraries: Vec<Option<LoadedLibrary>>,
    departed: Vec<LoadedPlugin<T>>,
}

impl<T: Plugin> PluginManager<T> {
    /// The directory: one record for each loaded plugin.
    pub closed spec fn directory(&self) -> Seq<LoadedPlugin<T>> {
        self.plugins@
    }

    /// The slots of the libraries that the manager holds. An empty slot
    /// holds no library: none was put there, or it was closed.
    pub closed spec fn libraries(&self) -> Seq<Option<LoadedLibrary>> {
        self.libraries@
    }

    /// The records of the plugins that left the directory while they were
    /// held elsewhere, for as long as they are: closing their library could
    /// pull the code from under them.
    pub closed spec fn departed(&self) -> Seq<LoadedPlugin<T>> {
        self.departed@
    }

    /// The records that keep libraries open: those of the directory, then
    /// those of the plugins that left it while they were held.
    pub open spec fn records(&self) -> Seq<LoadedPlugin<T>> {
        self.directory() + self.departed()
    }

    /// The name of the registration function, as the bytes of its text.
    pub closed spec fn registration_name(&self) -> Seq<u8> {
        self.registration_fn_name@
    }

    /// The fingerprint of the host's build identity.
    pub closed spec fn host_fingerprint(&self) -> u64 {
        self.fingerprint
    }

    /// The search path that bare library names are resolved with.
    pub closed spec fn search(&self) -> SearchPath {
        self.search_path
    }

    /// The invariant of a manager: identifiers are unique in the directory,
    /// every record points at a slot that holds an open library, and the
    /// name of the registration function is text.
    pub open spec fn wf(&self) -> bool {
        &&& ids_distinct(self.directory())
        &&& points_at_open(self.directory(), self.libraries())
        &&& points_at_open(self.departed(), self.libraries())
        &&& valid_utf8(self.registration_name())
    }

    /// Whether this manager has the settings of `before`: its search path,
    /// its fingerprint and the name of its registration function.
    pub open spec fn settings_of(&self, before: &Self) -> bool {
        &&& self.search() == before.search()
        &&& self.host_fingerprint() == before.host_fingerprint()
        &&& self.registration_name() == before.registration_name()
    }

    /// Construct a new plugin manager that resolves bare library names with
    /// this search path.
    pub fn new_with_search_path(search_path: SearchPath) -> (r: Self)
        ensures
            r.wf(),
            r.directory().len() == 0,
            r.libraries().len() == 0,
            r.search() == search_path,
            r.registration_name() == PLUGIN_REGISTRATION_FN_NAME.spec_bytes(),
            r.host_fingerprint() == fingerprint(PACKAGE_VERSION@, TOOLCHAIN_VERSION@),
            r.departed().len() == 0,
    {
        broadcast use encode_utf8_valid_utf8;

        PluginManager {
            search_path,
            registration_fn_name: PLUGIN_REGISTRATION_FN_NAME.as_bytes_vec(),
            fingerprint: compatibility_hash(PACKAGE_VERSION, TOOLCHAIN_VERSION),
            plugins: Vec::new(),
            libraries: Vec::new(),
            departed: Vec::new(),
        }
    }

    /// Override the default name of the registration function.
    pub fn set_registration_fn_name(&mut self, name: &[u8])
        requires
            old(self).wf(),
            valid_utf8(name@),
        ensures
            final(self).wf(),
            final(self).registration_name() == name@,
            final(self).directory() == old(self).directory(),
            final(self).libraries() == old(self).libraries(),
            final(self).departed() == old(self).departed(),
            final(self).host_fingerprint() == old(self).host_fingerprint(),
            final(self).search() == old(self).search(),
    {
        self.registration_fn_name = slice_to_vec(name);
    }

    /// Give the manager the fingerprint of the host's build identity.
    pub fn set_compatibility_hash(&mut self, hash: u64)
        requires
            old(self).wf(),
        ensures
            final(self).wf(),
            final(self).host_fingerprint() == hash,
            final(self).registration_name() == old(self).registration_name(),
            final(self).directory() == old(self).directory(),
            final(self).libraries() == old(self).libraries(),
            final(self).departed() == old(self).departed(),
            final(self).search() == old(self).search(),
    {
        self.fingerprint = hash;
    }

    /// Whether the manager holds an open library that was opened from `path`.
    pub open spec fn holds_library(&self, path: Seq<char>) -> bool {
        exists|slot: int|
            0 <= slot < self.libraries().len() && slot_holds(
                #[trigger] self.libraries()[slot],
                path,
            )
    }

    /// Returns `true` if the manager holds an open library that was opened
    /// from this path.
    pub fn is_open(&self, path: &str) -> (r: bool)
        ensures
            r == self.holds_library(path@),
    {
        let key = String::from_str(path);
        let mut i: usize = 0;
        while i < self.libraries.len()
            invariant
                i <= self.libraries.len(),
                key@ == path@,
                forall|j: int| 0 <= j < i ==> !slot_holds(#[trigger] self.libraries@[j], path@),
            decreases self.libraries.len() - i,
        {
            match &self.libraries[i] {
                Some(library) => {
                    if *library.file_name() == key {
                        assert(slot_holds(self.libraries()[i as int], path@));
                        return true;
                    }
                },
                None => {},
            }
            i += 1;
        }
        false
    }

    /// Returns `true` if the plugin manager has no plugins registered.
    pub fn is_empty(&self) -> (r: bool)
        ensures
            r == (self.directory().len() == 0),
    {
        self.plugins.is_empty()
    }

    /// Return the number of plugins registered in this plugin manager.
    pub fn len(&self) -> (r: usize)
        ensures
            r == self.directory().len(),
    {
        self.plugins.len()
    }

    /// The place of the plugin with this identifier in the directory.
    fn find(&self, id: &String) -> (r: Option<usize>)
        ensures
            match r {
                Some(i) => i < self.directory().len() && self.directory()[i as int].plugin.id()
                    == id@,
                None => !has_id(self.directory(), id@),
            },
    {
        let mut i: usize = 0;
        while i < self.plugins.len()
            invariant
                i <= self.plugins.len(),
                forall|j: int| 0 <= j < i ==> (#[trigger] self.plugins@[j]).plugin.id() != id@,
            decreases self.plugins.len() - i,
        {
            if *self.plugins[i].plugin.plugin_id() == *id {
                return Some(i);
            }
            i += 1;
        }
        None
    }

    /// Returns `true` if this plugin manager has a registered plugin with
    /// the provided plugin identifier.
    pub fn contains(&self, plugin_id: &str) -> (r: bool)
        ensures
            r == has_id(self.directory(), plugin_id@),
    {
        let id = String::from_str(plugin_id);
        self.find(&id).is_some()
    }

    /// Returns the plugin with the provided plugin identifier, if one exists.
    pub fn get(&self, plugin_id: &str) -> (r: Option<Arc<T>>)
        requires
            self.wf(),
        ensures
            match r {
                Some(plugin) => has_id(self.directory(), plugin_id@) && plugin.id() == plugin_id@
                    && plugin == self.directory()[index_of(self.directory(), plugin_id@)].plugin,
                None => !has_id(self.directory(), plugin_id@),
            },
    {
        let id = String::from_str(plugin_id);
        match self.find(&id) {
            Some(i) => {
                proof {
                    lemma_index_of(self.plugins@, i as int);
                }
                Some(self.plugins[i].plugin.clone())
            },
            None => None,
        }
    }

    /// Return all the plugins registered in this plugin manager, in the
    /// order of the directory.
    pub fn plugins(&self) -> (r: Vec<Arc<T>>)
        ensures
            r@.len() == self.directory().len(),
            forall|i: int| 0 <= i < r@.len() ==> r@[i] == self.directory()[i].plugin,
    {
        let mut all: Vec<Arc<T>> = Vec::new();
        let mut i: usize = 0;
        while i < self.plugins.len()
            invariant
                i <= self.plugins.len(),
                all@.len() == i,
                forall|j: int| 0 <= j < i ==> all@[j] == self.plugins@[j].plugin,
            decreases self.plugins.len() - i,
        {
            all.push(self.plugins[i].plugin.clone());
            i += 1;
        }
        all
    }

    /// The path to look for `file_name` in the search path: the first file
    /// of that name in its directories, or the name itself.
    fn find_library(&self, file_name: &str) -> (r: String)
        ensures
            search_directories(self.search()).len() == 0 ==> r@ == file_name@,
    {
        resolved_path(file_name, search_path_find_file(&self.search_path, file_name))
    }

    /// The path that the library named `file_name` is opened from. A name
    /// with a path separator or an extension is taken as it is, and so is
    /// every name while the search path is empty. A bare name is looked for
    /// in the search path.
    pub fn library_path(&self, file_name: &str) -> (r: String)
        ensures
            !is_bare_name(file_name@) || search_directories(self.search()).len() == 0 ==> r@
                == file_name@,
    {
        if bare_name(file_name) && !search_path_is_empty(&self.search_path) {
            self.find_library(file_name)
        } else {
            String::from_str(file_name)
        }
    }

    /// Returns `true` if `slot` holds an open library.
    pub fn holds_slot(&self, slot: usize) -> (r: bool)
        ensures
            r == (slot < self.libraries().len() && self.libraries()[slot as int] is Some),
    {
        slot < self.libraries.len() && self.libraries[slot].is_some()
    }

    /// Keep an open library in the manager: it goes into the first empty
    /// slot, whose number is returned. No record points at it yet.
    pub fn keep_library(&mut self, library: LoadedLibrary) -> (slot: usize)
        requires
            old(self).wf(),
        ensures
            final(self).wf(),
            final(self).settings_of(old(self)),
            final(self).directory() == old(self).directory(),
            final(self).libraries() == placed(old(self).libraries(), library),
            final(self).departed() == old(self).departed(),
            slot == free_slot(old(self).libraries()),
            slot < final(self).libraries().len(),
            final(self).libraries()[slot as int] == Some(library),
            !referenced(final(self).records(), slot as int),
    {
        let mut i: usize = 0;
        while i < self.libraries.len() && self.libraries[i].is_some()
            invariant
                i <= self.libraries.len(),
                forall|j: int| 0 <= j < i ==> self.libraries@[j] is Some,
            decreases self.libraries.len() - i,
        {
            i += 1;
        }
        proof {
            lemma_free_slot(self.libraries@, i as int);
        }
        if i < self.libraries.len() {
            self.libraries.set(i, Some(library));
        } else {
            self.libraries.push(Some(library));
        }
        proof {
            lemma_referenced_in_both(self.plugins@, self.departed@);
        }
        i
    }

    /// Take the library out of `slot` if no record points at it any more.
    fn release(&mut self, slot: usize) -> (r: Option<LoadedLibrary>)
        requires
            slot < old(self).libraries().len(),
        ensures
            final(self).settings_of(old(self)),
            final(self).directory() == old(self).directory(),
            final(self).departed() == old(self).departed(),
            referenced(old(self).records(), slot as int) ==> {
                &&& r.is_none()
                &&& final(self).libraries() == old(self).libraries()
            },
            !referenced(old(self).records(), slot as int) ==> {
                &&& r == old(self).libraries()[slot as int]
                &&& final(self).libraries() == old(self).libraries().update(slot as int, None)
            },
    {
        let mut i: usize = 0;
        while i < self.plugins.len()
            invariant
                i <= self.plugins.len(),
                forall|j: int| 0 <= j < i ==> (#[trigger] self.plugins@[j]).library != slot,
            decreases self.plugins.len() - i,
        {
            if self.plugins[i].library == slot {
                proof {
                    lemma_referenced_in_both(self.plugins@, self.departed@);
                }
                return None;
            }
            i += 1;
        }
        let mut k: usize = 0;
        while k < self.departed.len()
            invariant
                k <= self.departed.len(),
                !referenced(self.plugins@, slot as int),
                forall|j: int| 0 <= j < k ==> (#[trigger] self.departed@[j]).library != slot,
            decreases self.departed.len() - k,
        {
            if self.departed[k].library == slot {
                proof {
                    lemma_referenced_in_both(self.plugins@, self.departed@);
                }
                return None;
            }
            k += 1;
        }
        proof {
            lemma_referenced_in_both(self.plugins@, self.departed@);
        }
        let mut taken: Option<LoadedLibrary> = None;
        self.libraries.set_and_swap(slot, &mut taken);
        taken
    }

    /// Put `plugin`, which came from the library in `slot`, in the place of
    /// the record at place `j`, which holds a plugin with its identifier,
    /// given the number of holders of that plugin. Where the plugin is held
    /// elsewhere too, its record is kept aside and every library stays.
    /// Where the directory was its only holder, the library that its record
    /// pointed at leaves its slot if no record points at it any more.
    pub fn replace_entry(&mut self, j: usize, plugin: Arc<T>, slot: usize, holders: usize)
        requires
            old(self).wf(),
            j < old(self).directory().len(),
            old(self).directory()[j as int].plugin.id() == plugin.id(),
            slot < old(self).libraries().len(),
            old(self).libraries()[slot as int] is Some,
        ensures
            final(self).wf(),
            final(self).settings_of(old(self)),
            final(self).directory() == old(self).directory().update(
                j as int,
                (LoadedPlugin { plugin, library: slot }),
            ),
            final(self).libraries() == released(
                old(self).libraries(),
                old(self).records(),
                final(self).records(),
            ),
            holders > 1 ==> {
                &&& final(self).departed() == old(self).departed().push(
                    old(self).directory()[j as int],
                )
                &&& final(self).libraries() == old(self).libraries()
            },
            holders <= 1 ==> final(self).departed() == old(self).departed(),
    {
        let ghost before = self.plugins@;
        let ghost aside = self.departed@;
        let ghost slots = self.libraries@;
        let home = self.plugins[j].library;
        let mut entry = LoadedPlugin { plugin, library: slot };
        self.plugins.set_and_swap(j, &mut entry);
        if holders > 1 {
            self.departed.push(entry);
        } else {
            let _ = self.release(home);
        }
        proof {
            let after = self.plugins@;
            assert(before[j as int].library == home);
            assert(after[j as int].library == slot);
            lemma_referenced_in_both(before, aside);
            lemma_referenced_in_both(after, self.departed@);
            assert forall|a: int, b: int| 0 <= a < b < after.len() implies (#[trigger] after[a]).plugin.id()
                != (#[trigger] after[b]).plugin.id() by {
                assert(after[a].plugin.id() == before[a].plugin.id());
                assert(after[b].plugin.id() == before[b].plugin.id());
            }
            assert forall|x: int| x != home && referenced(before, x) implies referenced(
                after,
                x,
            ) by {
                let i = choose|i: int| 0 <= i < before.len() && (#[trigger] before[i]).library == x;
                assert(after[i].library == x);
            }
            assert forall|x: int| referenced(aside, x) implies referenced(self.departed@, x) by {
                let i = choose|i: int| 0 <= i < aside.len() && (#[trigger] aside[i]).library == x;
                assert(self.departed@[i].library == x);
            }
            if holders > 1 {
                assert(self.departed@[aside.len() as int].library == home);
                lemma_nothing_released(slots, before + aside, after + self.departed@);
            } else {
                lemma_one_released(slots, before + aside, after + self.departed@, home as int);
            }
        }
    }

    /// Install a plugin that came from the library in `slot`, given what its
    /// `on_load` returned. A failure of `on_load` comes back as it is and
    /// leaves the manager as it was. Otherwise the plugin enters the
    /// directory, in the place of the record with its identifier if there
    /// is one. A record that was replaced is kept aside if its plugin is
    /// held elsewhere; else its library leaves its slot if no record points
    /// at it any more. No other slot changes.
    pub fn install(&mut self, plugin: Arc<T>, slot: usize, loaded: Result<(), Error>) -> (r:
        Result<(), Error>)
        requires
            old(self).wf(),
            slot < old(self).libraries().len(),
            old(self).libraries()[slot as int] is Some,
        ensures
            final(self).wf(),
            final(self).settings_of(old(self)),
            match loaded {
                Ok(_) => {
                    &&& r.is_ok()
                    &&& final(self).directory() == installed_one(
                        old(self).directory(),
                        plugin,
                        slot,
                    )
                    &&& final(self).libraries() == released(
                        old(self).libraries(),
                        old(self).records(),
                        final(self).records(),
                    )
                    &&& !has_id(old(self).directory(), plugin.id()) ==> {
                        &&& final(self).libraries() == old(self).libraries()
                        &&& final(self).departed() == old(self).departed()
                    }
                    &&& has_id(old(self).directory(), plugin.id()) ==> {
                        ||| final(self).departed() == old(self).departed()
                        ||| {
                            &&& final(self).libraries() == old(self).libraries()
                            &&& final(self).departed() == old(self).departed().push(
                                old(self).directory()[index_of(
                                    old(self).directory(),
                                    plugin.id(),
                                )],
                            )
                        }
                    }
                },
                Err(e) => {
                    &&& r == Err::<(), Error>(e)
                    &&& final(self).directory() == old(self).directory()
                    &&& final(self).libraries() == old(self).libraries()
                    &&& final(self).departed() == old(self).departed()
                },
            },
    {
        match loaded {
            Err(e) => {
                return Err(e);
            },
            Ok(_) => {},
        }
        let id = plugin.plugin_id().clone();
        match self.find(&id) {
            Some(j) => {
                proof {
                    lemma_index_of(self.plugins@, j as int);
                }
                let count = holders(&self.plugins[j].plugin);
                self.replace_entry(j, plugin, slot, count);
            },
            None => {
                let ghost before = self.plugins@;
                proof {
                    lemma_installed_one(before, plugin, slot);
                }
                self.plugins.push(LoadedPlugin { plugin, library: slot });
                proof {
                    lemma_referenced_in_both(before, self.departed@);
                    lemma_referenced_in_both(self.plugins@, self.departed@);
                    assert forall|x: int| referenced(before, x) implies referenced(
                        self.plugins@,
                        x,
                    ) by {
                        let i = choose|i: int|
                            0 <= i < before.len() && (#[trigger] before[i]).library == x;
                        assert(self.plugins@[i].library == x);
                    }
                    lemma_nothing_released(
                        self.libraries@,
                        before + self.departed@,
                        self.plugins@ + self.departed@,
                    );
                }
            },
        }
        Ok(())
    }

    /// The name of the registration function, as the host hands it to the
    /// loader.
    pub fn registration_fn_name(&self) -> (r: &Vec<u8>)
        ensures
            r@ == self.registration_name(),
    {
        &self.registration_fn_name
    }

    /// The name of the registration function as text.
    fn registration_symbol(&self) -> (r: String)
        requires
            self.wf(),
        ensures
            r@ == decode_utf8(self.registration_name()),
    {
        match text_of(self.registration_fn_name.clone()) {
            Some(text) => text,
            None => String::new(),
        }
    }

    /// Whether this manager can be `before` after the first `k` of
    /// `plugins`, which came from `from_library`, were installed: the
    /// library stands in the slot that was the first empty one, and the
    /// library of each record that was replaced has left its slot unless a
    /// record still points at it. Where each plugin took a new place in the
    /// directory, no record was kept aside and no library left.
    pub open spec fn installed_through(
        &self,
        before: &Self,
        from_library: LoadedLibrary,
        plugins: Seq<Arc<T>>,
        k: int,
    ) -> bool {
        &&& 0 <= k <= plugins.len()
        &&& self.directory() == installed(
            before.directory(),
            plugins.take(k),
            free_slot(before.libraries()) as usize,
        )
        &&& self.libraries() == released(
            placed(before.libraries(), from_library),
            before.records(),
            self.records(),
        )
        &&& forall|x: int|
            referenced(self.departed(), x) ==> referenced(before.records(), x) || x == free_slot(
                before.libraries(),
            )
        &&& self.directory().len() == before.directory().len() + k ==> {
            &&& self.departed() == before.departed()
            &&& self.libraries() == placed(before.libraries(), from_library)
        }
    }

    /// Decide on a library's compatibility, given what the call of its
    /// compatibility function came to: the fingerprint that it returned, or
    /// the loader's failure to find the function. The library comes back
    /// only if its fingerprint is the host's, as a compatible library: no
    /// other registers plugins. Otherwise the manager keeps it, open and
    /// without plugins, and the directory stays as it is.
    pub fn check_compatibility(
        &mut self,
        library: LoadedLibrary,
        probe: Result<u64, LoaderError>,
    ) -> (r: Result<CompatibleLibrary, Error>)
        requires
            old(self).wf(),
        ensures
            final(self).wf(),
            final(self).settings_of(old(self)),
            final(self).directory() == old(self).directory(),
            final(self).departed() == old(self).departed(),
            match probe {
                Ok(found) if found == old(self).host_fingerprint() => {
                    &&& r matches Ok(compatible) && compatible.loaded() == library
                    &&& final(self).libraries() == old(self).libraries()
                },
                Ok(_) => {
                    &&& r matches Err(error) && error@ == ErrorKindView::IncompatibleLibraryVersion(
                        library.path(),
                    )
                    &&& final(self).libraries() == placed(old(self).libraries(), library)
                },
                Err(e) => {
                    &&& r matches Err(error) && error@ == ErrorKindView::SymbolNotFound(
                        COMPATIBILITY_FN_NAME@,
                        library.path(),
                        CauseView::Loader(e),
                    )
                    &&& final(self).libraries() == placed(old(self).libraries(), library)
                },
            },
    {
        match probe {
            Err(e) => {
                let path = library.file_name().clone();
                let _ = self.keep_library(library);
                Err(
                    Error(
                        ErrorKind::SymbolNotFound(
                            String::from_str(COMPATIBILITY_FN_NAME),
                            path,
                            Cause::Loader(e),
                        ),
                    ),
                )
            },
            Ok(found) => {
                if found != self.fingerprint {
                    let path = library.file_name().clone();
                    let _ = self.keep_library(library);
                    Err(Error(ErrorKind::IncompatibleLibraryVersion(path)))
                } else {
                    Ok(CompatibleLibrary::new(library))
                }
            },
        }
    }

    /// Install the plugins of a compatible library, given what the call of
    /// its registration function came to: the registrar that it filled, or
    /// the loader's failure to find the function.
    ///
    /// Where the function was not found, or the library reported an error to
    /// the registrar, the directory stays as it is and the manager keeps
    /// the library. A library that registered no plugin is closed. Otherwise
    /// the manager keeps the library, and each plugin is told that it was
    /// loaded and then installed, in the order of registration; the first
    /// plugin whose `on_load` fails ends the call with that failure, and the
    /// plugins before it stay installed.
    pub fn register_plugins(
        &mut self,
        from_library: CompatibleLibrary,
        outcome: Result<PluginRegistrar<T>, LoaderError>,
    ) -> (r: Result<(), Error>)
        requires
            old(self).wf(),
        ensures
            final(self).wf(),
            final(self).settings_of(old(self)),
            match outcome {
                Err(e) => {
                    &&& r matches Err(error) && error@ == ErrorKindView::SymbolNotFound(
                        decode_utf8(old(self).registration_name()),
                        from_library.loaded().path(),
                        CauseView::Loader(e),
                    )
                    &&& final(self).directory() == old(self).directory()
                    &&& final(self).departed() == old(self).departed()
                    &&& final(self).libraries() == placed(old(self).libraries(), from_library.loaded())
                },
                Ok(registrar) => match registrar.failure() {
                    Some(cause) => {
                        &&& r matches Err(error) && error@ == ErrorKindView::PluginRegistration(
                            cause,
                        )
                        &&& final(self).directory() == old(self).directory()
                        &&& final(self).departed() == old(self).departed()
                        &&& final(self).libraries() == placed(
                            old(self).libraries(),
                            from_library.loaded(),
                        )
                    },
                    None => if registrar.registered().len() == 0 {
                        &&& r.is_ok()
                        &&& final(self).directory() == old(self).directory()
                        &&& final(self).departed() == old(self).departed()
                        &&& final(self).libraries() == old(self).libraries()
                    } else {
                        exists|k: int|
                            {
                                &&& #[trigger] final(self).installed_through(
                                    old(self),
                                    from_library.loaded(),
                                    registrar.registered(),
                                    k,
                                )
                                &&& r.is_ok() <==> k == registrar.registered().len()
                                &&& r matches Err(error) ==> call_ensures(
                                    T::on_load,
                                    (&*registrar.registered()[k],),
                                    Err::<(), Error>(error),
                                )
                                &&& forall|j: int|
                                    0 <= j < k ==> call_ensures(
                                        T::on_load,
                                        (&*(#[trigger] registrar.registered()[j]),),
                                        Ok::<(), Error>(()),
                                    )
                            }
                    },
                },
            },
    {
        let ghost compatible = from_library;
        let library = from_library.into_loaded();
        let registrar = match outcome {
            Err(e) => {
                let symbol = self.registration_symbol();
                let path = library.file_name().clone();
                let _ = self.keep_library(library);
                return Err(Error(ErrorKind::SymbolNotFound(symbol, path, Cause::Loader(e))));
            },
            Ok(registrar) => registrar,
        };
        let mut plugins = match registrar.plugins() {
            Err(cause) => {
                let _ = self.keep_library(library);
                return Err(Error(ErrorKind::PluginRegistration(cause)));
            },
            Ok(plugins) => plugins,
        };
        if plugins.len() == 0 {
            let _ = library.close();
            return Ok(());
        }
        let ghost before = self.plugins@;
        let ghost aside = self.departed@;
        let ghost first = self.plugins@ + self.departed@;
        let ghost slots = placed(self.libraries@, library);
        let slot = self.keep_library(library);
        let ghost all = plugins@;
        let ghost mut i: int = 0;
        proof {
            assert(all.take(0) =~= Seq::<Arc<T>>::empty());
            assert(all.skip(0) =~= all);
            lemma_nothing_released(slots, first, first);
        }
        while plugins.len() > 0
            invariant
                0 <= i <= all.len(),
                all.len() > 0,
                plugins@ == all.skip(i),
                self.wf(),
                self.settings_of(old(self)),
                outcome == Ok::<PluginRegistrar<T>, LoaderError>(registrar),
                registrar.failure().is_none(),
                all == registrar.registered(),
                before == old(self).directory(),
                aside == old(self).departed(),
                first == before + aside,
                compatible == from_library,
                slots == placed(old(self).libraries(), compatible.loaded()),
                slot == free_slot(old(self).libraries()),
                slot < self.libraries@.len(),
                self.libraries@[slot as int] is Some,
                !referenced(first, slot as int),
                forall|x: int| x != slot && referenced(self.records(), x) ==> referenced(first, x),
                self.plugins@ == installed(before, all.take(i), slot),
                self.libraries@ == released(slots, first, self.records()),
                self.plugins@.len() <= before.len() + i,
                self.plugins@.len() == before.len() + i ==> {
                    &&& self.departed@ == aside
                    &&& self.libraries@ == slots
                },
                forall|j: int|
                    0 <= j < i ==> call_ensures(
                        T::on_load,
                        (&*(#[trigger] all[j]),),
                        Ok::<(), Error>(()),
                    ),
            decreases plugins.len(),
        {
            let plugin = plugins.remove(0);
            let ghost current = self.plugins@;
            let ghost kept = self.departed@;
            let loaded = plugin.on_load();
            assert(loaded matches Ok(done) ==> done == ());
            let failed = loaded.is_err();
            let installing = self.install(plugin, slot, loaded);
            if failed {
                proof {
                    lemma_referenced_in_both(self.plugins@, self.departed@);
                    assert(self.installed_through(old(self), compatible.loaded(), all, i));
                }
                return installing;
            }
            proof {
                lemma_installed_one(current, plugin, slot);
                lemma_referenced_in_both(current, kept);
                lemma_referenced_in_both(self.plugins@, self.departed@);
                assert forall|x: int| referenced(self.departed@, x) implies referenced(kept, x)
                    || referenced(current, x) by {
                    if self.departed@ != kept {
                        let d = choose|d: int|
                            0 <= d < self.departed@.len() && (#[trigger] self.departed@[d]).library
                                == x;
                        if d < kept.len() {
                            assert(kept[d].library == x);
                        } else {
                            assert(current[index_of(current, plugin.id())].library == x);
                        }
                    }
                }
                lemma_released_twice(slots, first, current + kept, self.records());
                assert(all.take(i + 1).drop_last() =~= all.take(i));
                assert(all.take(i + 1).last() == all[i]);
                assert(plugins@ =~= all.skip(i + 1));
                i = i + 1;
            }
        }
        proof {
            assert(all.take(i) =~= all);
            lemma_referenced_in_both(self.plugins@, self.departed@);
            assert(self.installed_through(old(self), compatible.loaded(), all, i));
        }
        Ok(())
    }

    /// Whether this manager can be `before` after the first `k` records of
    /// the directory were unloaded: a library has left its slot exactly if
    /// a record pointed at it and none does any more, and no record is kept
    /// aside but of a plugin that was in the directory or aside before.
    pub open spec fn unloaded_through(&self, before: &Self, k: int) -> bool {
        &&& 0 <= k <= before.directory().len()
        &&& self.directory() == before.directory().skip(k)
        &&& self.libraries() == released(before.libraries(), before.records(), self.records())
        &&& slots_within(self.records(), before.records())
    }

    /// Take the record at place `i` out of the directory, given the number
    /// of holders of its plugin. Where the plugin is held elsewhere too,
    /// its record is kept aside and its library stays open. Where the
    /// directory was its only holder, the library that the record pointed
    /// at leaves its slot if no record points at it any more, and is
    /// returned.
    pub fn unload_entry(&mut self, i: usize, holders: usize) -> (r: (
        LoadedPlugin<T>,
        Option<LoadedLibrary>,
    ))
        requires
            old(self).wf(),
            i < old(self).directory().len(),
        ensures
            final(self).wf(),
            final(self).settings_of(old(self)),
            r.0 == old(self).directory()[i as int],
            final(self).directory() == old(self).directory().remove(i as int),
            final(self).libraries() == released(
                old(self).libraries(),
                old(self).records(),
                final(self).records(),
            ),
            holders > 1 ==> {
                &&& r.1 is None
                &&& final(self).departed() == old(self).departed().push(r.0)
                &&& final(self).libraries() == old(self).libraries()
            },
            holders <= 1 ==> {
                &&& final(self).departed() == old(self).departed()
                &&& r.1 == library_gone(
                    old(self).libraries(),
                    final(self).records(),
                    r.0.library as int,
                )
            },
    {
        let ghost before = self.plugins@;
        let ghost aside = self.departed@;
        let ghost slots = self.libraries@;
        let entry = self.plugins.remove(i);
        let home = entry.library;
        let handed = LoadedPlugin { plugin: entry.plugin.clone(), library: home };
        let gone = if holders > 1 {
            self.departed.push(entry);
            None
        } else {
            self.release(home)
        };
        proof {
            let after = self.plugins@;
            assert(before[i as int].library == home);
            lemma_fewer_records(before, i as int);
            lemma_referenced_in_both(before, aside);
            lemma_referenced_in_both(after, self.departed@);
            assert forall|x: int| referenced(aside, x) implies referenced(self.departed@, x) by {
                let d = choose|d: int| 0 <= d < aside.len() && (#[trigger] aside[d]).library == x;
                assert(self.departed@[d].library == x);
            }
            if holders > 1 {
                assert(self.departed@[aside.len() as int].library == home);
                lemma_nothing_released(slots, before + aside, after + self.departed@);
            } else {
                lemma_one_released(slots, before + aside, after + self.departed@, home as int);
            }
        }
        (handed, gone)
    }

    /// Let go of the record at place `k` among those that are kept aside,
    /// given the number of holders of its plugin. Where the plugin is still
    /// held elsewhere, nothing changes. Where the manager is its only
    /// holder, the record is dropped, and the library that it pointed at
    /// leaves its slot if no record points at it any more, and is returned.
    pub fn let_go(&mut self, k: usize, holders: usize) -> (r: Option<LoadedLibrary>)
        requires
            old(self).wf(),
            k < old(self).departed().len(),
        ensures
            final(self).wf(),
            final(self).settings_of(old(self)),
            final(self).directory() == old(self).directory(),
            final(self).libraries() == released(
                old(self).libraries(),
                old(self).records(),
                final(self).records(),
            ),
            holders > 1 ==> {
                &&& r is None
                &&& final(self).departed() == old(self).departed()
                &&& final(self).libraries() == old(self).libraries()
            },
            holders <= 1 ==> {
                &&& final(self).departed() == old(self).departed().remove(k as int)
                &&& r == library_gone(
                    old(self).libraries(),
                    final(self).records(),
                    old(self).departed()[k as int].library as int,
                )
            },
    {
        let ghost before = self.plugins@;
        let ghost aside = self.departed@;
        let ghost slots = self.libraries@;
        if holders > 1 {
            proof {
                lemma_nothing_released(slots, before + aside, before + aside);
            }
            return None;
        }
        let entry = self.departed.remove(k);
        let gone = self.release(entry.library);
        proof {
            let home = entry.library;
            assert(aside[k as int].library == home);
            lemma_fewer_records(aside, k as int);
            lemma_referenced_in_both(before, aside);
            lemma_referenced_in_both(before, self.departed@);
            lemma_one_released(slots, before + aside, before + self.departed@, home as int);
        }
        gone
    }

    /// The number of plugins that left the directory while they were held
    /// elsewhere and whose records are kept aside.
    pub fn kept_aside(&self) -> (r: usize)
        ensures
            r == self.departed().len(),
    {
        self.departed.len()
    }

    /// Ask of each plugin whose record is kept aside whether it is still
    /// held elsewhere, let go of those that are not, and close each library
    /// that leaves its slot with them. The first failure to close a library
    /// ends the call.
    pub fn sweep(&mut self) -> (r: Result<(), Error>)
        requires
            old(self).wf(),
        ensures
            final(self).wf(),
            final(self).settings_of(old(self)),
            final(self).directory() == old(self).directory(),
            final(self).libraries() == released(
                old(self).libraries(),
                old(self).records(),
                final(self).records(),
            ),
            slots_within(final(self).departed(), old(self).departed()),
            final(self).departed().len() <= old(self).departed().len(),
            r matches Err(error) ==> close_failure(
                old(self).libraries(),
                final(self).libraries(),
                error@,
            ),
    {
        let ghost first = self.plugins@ + self.departed@;
        let ghost slots = self.libraries@;
        let mut k: usize = 0;
        proof {
            lemma_nothing_released(slots, first, first);
        }
        while k < self.departed.len()
            invariant
                k <= self.departed@.len(),
                self.wf(),
                self.settings_of(old(self)),
                self.plugins@ == old(self).directory(),
                first == old(self).records(),
                slots == old(self).libraries(),
                self.libraries@ == released(slots, first, self.records()),
                slots_within(self.departed@, old(self).departed()),
                self.departed@.len() <= old(self).departed().len(),
            decreases self.departed@.len() - k,
        {
            let ghost current = self.records();
            let ghost kept = self.departed@;
            let ghost middle = self.libraries@;
            let ghost home = self.departed@[k as int].library as int;
            let count = holders(&self.departed[k].plugin);
            let gone = self.let_go(k, count);
            proof {
                lemma_referenced_in_both(self.plugins@, kept);
                lemma_referenced_in_both(self.plugins@, self.departed@);
                lemma_referenced_in_both(old(self).directory(), old(self).departed());
                if count <= 1 {
                    lemma_fewer_records(kept, k as int);
                }
                lemma_released_twice(slots, first, current, self.records());
            }
            if count > 1 {
                k += 1;
            }
            match gone {
                Some(library) => {
                    let closed = library.close();
                    if closed.is_err() {
                        proof {
                            assert(slot_holds(middle[home], library.path()));
                            assert(self.libraries@[home] is None);
                            assert(library_left(middle, self.libraries@, library.path()));
                            lemma_left_earlier(
                                slots,
                                first,
                                current,
                                self.libraries@,
                                library.path(),
                            );
                        }
                        return closed;
                    }
                },
                None => {},
            }
        }
        Ok(())
    }

    /// Unload the plugin identified by the provided plugin identifier, if
    /// one exists: its record leaves the directory and the plugin is told.
    /// Its library is closed if no other plugin of the directory came from
    /// it and no plugin of it is held elsewhere. A plugin that `get` handed
    /// out and that is still held keeps its library open: its record is
    /// kept aside. After that the records that are kept aside are gone
    /// through, and those whose plugins are no longer held are let go, with
    /// the libraries that only they kept open.
    ///
    /// The record has left the directory whatever is returned: the failure
    /// of `on_unload`, after which a library that left its slot is dropped
    /// without a further call, or else the failure to close a library.
    pub fn unload_plugin(&mut self, plugin_name: &str) -> (r: Result<(), Error>)
        requires
            old(self).wf(),
        ensures
            final(self).wf(),
            final(self).settings_of(old(self)),
            !has_id(old(self).directory(), plugin_name@) ==> {
                &&& r.is_ok()
                &&& final(self).directory() == old(self).directory()
                &&& final(self).libraries() == old(self).libraries()
                &&& final(self).departed() == old(self).departed()
            },
            has_id(old(self).directory(), plugin_name@) ==> {
                &&& final(self).directory() == old(self).directory().remove(
                    index_of(old(self).directory(), plugin_name@),
                )
                &&& final(self).libraries() == released(
                    old(self).libraries(),
                    old(self).records(),
                    final(self).records(),
                )
                &&& slots_within(final(self).records(), old(self).records())
                &&& unload_result(
                    old(self).directory()[index_of(old(self).directory(), plugin_name@)].plugin,
                    old(self).libraries(),
                    final(self).libraries(),
                    r,
                )
            },
    {
        let id = String::from_str(plugin_name);
        match self.find(&id) {
            None => Ok(()),
            Some(i) => {
                let ghost before = self.plugins@;
                let ghost first = self.records();
                let ghost slots = self.libraries@;
                proof {
                    lemma_index_of(before, i as int);
                    lemma_fewer_records(before, i as int);
                    lemma_referenced_in_both(before, self.departed@);
                }
                let count = holders(&self.plugins[i].plugin);
                let (entry, gone) = self.unload_entry(i, count);
                let ghost second = self.records();
                let ghost middle = self.libraries@;
                proof {
                    lemma_referenced_in_both(self.plugins@, self.departed@);
                    assert forall|x: int| referenced(self.departed@, x) implies referenced(
                        first,
                        x,
                    ) by {
                        if count > 1 {
                            let d = choose|d: int|
                                0 <= d < self.departed@.len() && (
                                #[trigger] self.departed@[d]).library == x;
                            if d < old(self).departed().len() {
                                assert(old(self).departed()[d].library == x);
                            } else {
                                assert(before[i as int].library == x);
                            }
                        }
                    }
                }
                let unloaded = entry.plugin.on_unload();
                assert(unloaded matches Ok(done) ==> done == ());
                let closed = unload_outcome(unloaded, gone);
                if closed.is_err() {
                    proof {
                        if unloaded is Ok {
                            let home = before[i as int].library as int;
                            assert(gone is Some);
                            assert(slot_holds(slots[home], gone->Some_0.path()));
                            assert(middle[home] is None);
                            assert(library_left(slots, middle, gone->Some_0.path()));
                        }
                    }
                    return closed;
                }
                let swept = self.sweep();
                proof {
                    lemma_referenced_in_both(self.plugins@, self.departed@);
                    lemma_released_twice(slots, first, second, self.records());
                    if swept is Err {
                        let path = swept->Err_0@->LibraryCloseFailed_0;
                        lemma_left_earlier(slots, first, second, self.libraries@, path);
                    }
                }
                swept
            },
        }
    }

    /// Unload all plugins that are currently registered in this plugin
    /// manager, from the first record of the directory on, and close the
    /// libraries that they leave behind, but for those of plugins that are
    /// still held elsewhere. The first failure ends the call: the records
    /// after the failing one stay, with their libraries.
    pub fn unload_all(&mut self) -> (r: Result<(), Error>)
        requires
            old(self).wf(),
        ensures
            final(self).wf(),
            final(self).settings_of(old(self)),
            exists|k: int|
                {
                    &&& #[trigger] final(self).unloaded_through(old(self), k)
                    &&& r.is_ok() ==> k == old(self).directory().len()
                    &&& k >= 1 ==> unload_result(
                        old(self).directory()[k - 1].plugin,
                        old(self).libraries(),
                        final(self).libraries(),
                        r,
                    )
                    &&& k == 0 ==> (r matches Err(error) ==> close_failure(
                        old(self).libraries(),
                        final(self).libraries(),
                        error@,
                    ))
                    &&& forall|j: int|
                        0 <= j < k - 1 ==> call_ensures(
                            T::on_unload,
                            (&*(#[trigger] old(self).directory()[j]).plugin,),
                            Ok::<(), Error>(()),
                        )
                },
    {
        let ghost before = self.plugins@;
        let ghost first = self.records();
        let ghost slots = self.libraries@;
        let ghost mut k: int = 0;
        proof {
            assert(before.skip(0) =~= before);
            lemma_nothing_released(slots, first, first);
        }
        while self.plugins.len() > 0
            invariant
                self.wf(),
                old(self).wf(),
                self.settings_of(old(self)),
                before == old(self).directory(),
                first == old(self).records(),
                slots == old(self).libraries(),
                0 <= k <= before.len(),
                self.plugins@ == before.skip(k),
                self.libraries@ == released(slots, first, self.records()),
                slots_within(self.records(), first),
                forall|j: int|
                    0 <= j < k ==> call_ensures(
                        T::on_unload,
                        (&*(#[trigger] before[j]).plugin,),
                        Ok::<(), Error>(()),
                    ),
            decreases self.plugins.len(),
        {
            let id = self.plugins[0].plugin.plugin_id().clone();
            let ghost current = self.plugins@;
            let ghost second = self.records();
            proof {
                lemma_index_of(current, 0);
                assert(current.remove(0) =~= before.skip(k + 1));
                assert(current[0] == before[k]);
            }
            let unloaded = self.unload_plugin(id.as_str());
            proof {
                lemma_released_twice(slots, first, second, self.records());
                if unloaded is Err {
                    let error = unloaded->Err_0@;
                    if close_failure(released(slots, first, second), self.libraries@, error) {
                        let path = error->LibraryCloseFailed_0;
                        lemma_left_earlier(slots, first, second, self.libraries@, path);
                    }
                }
                assert(unload_result(before[k].plugin, slots, self.libraries@, unloaded));
                k = k + 1;
            }
            if unloaded.is_err() {
                proof {
                    assert(self.unloaded_through(old(self), k));
                }
                return unloaded;
            }
        }
        let ghost second = self.records();
        let swept = self.sweep();
        proof {
            assert(k == before.len());
            lemma_referenced_in_both(self.plugins@, self.departed@);
            lemma_referenced_in_both(self.plugins@, second.skip(0));
            lemma_released_twice(slots, first, second, self.records());
            if swept is Err {
                let path = swept->Err_0@->LibraryCloseFailed_0;
                lemma_left_earlier(slots, first, second, self.libraries@, path);
            }
            assert(self.unloaded_through(old(self), k));
        }
        swept
    }
}

/// After a load that went through, every plugin that the library
/// registered is in the directory: `contains` finds its identifier, and
/// `get` returns a plugin with that identifier.
pub proof fn law_loaded_plugin_is_found<T: Plugin>(
    before: PluginManager<T>,
    after: PluginManager<T>,
    from_library: LoadedLibrary,
    plugins: Seq<Arc<T>>,
    j: int,
)
    requires
        before.wf(),
        after.installed_through(&before, from_library, plugins, plugins.len() as int),
        0 <= j < plugins.len(),
    ensures
        has_id(after.directory(), plugins[j].id()),
        after.directory()[index_of(after.directory(), plugins[j].id())].plugin.id()
            == plugins[j].id(),
{
    assert(plugins.take(plugins.len() as int) =~= plugins);
    law_installed_plugins_are_found(
        before.directory(),
        plugins,
        free_slot(before.libraries()) as usize,
        j,
    );
}

/// What unloading a plugin comes to, given what its `on_unload` returned
/// and the library that its record was the last to point at, if it was:
/// the failure of `on_unload`, or else the outcome of closing the library.
pub fn unload_outcome(unloaded: Result<(), Error>, gone: Option<LoadedLibrary>) -> (r: Result<
    (),
    Error,
>)
    ensures
        match unloaded {
            Err(e) => r == Err::<(), Error>(e),
            Ok(_) => match gone {
                None => r.is_ok(),
                Some(library) => r matches Err(error) ==> error@ matches ErrorKindView::LibraryCloseFailed(
                    path,
                    CauseView::Loader(_),
                ) && path == library.path(),
            },
        },
        unloaded matches Ok(_) ==> (r is Ok || gone is Some),
{
    match unloaded {
        Err(e) => Err(e),
        Ok(_) => match gone {
            None => Ok(()),
            Some(library) => library.close(),
        },
    }
}

impl<T: Plugin> Default for PluginManager<T> {
    /// A plugin manager with an empty search path.
    fn default() -> (r: Self)
        ensures
            r.wf(),
            r.directory().len() == 0,
            r.libraries().len() == 0,
            search_directories(r.search()).len() == 0,
            r.registration_name() == PLUGIN_REGISTRATION_FN_NAME.spec_bytes(),
            r.host_fingerprint() == fingerprint(PACKAGE_VERSION@, TOOLCHAIN_VERSION@),
            r.departed().len() == 0,
    {
        PluginManager::new_with_search_path(empty_search_path())
    }
}

} // verus!
