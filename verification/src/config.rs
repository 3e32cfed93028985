//! A configuration that maps a plugin type identifier to the libraries that
//! provide plugins of that type, so that a host can build one plugin manager
//! for each type from one configuration value.

use crate::error::{Error, ErrorKind, ErrorKindView};
use crate::manager::PluginManager;
use crate::plugin::{
    fingerprint, Plugin, PACKAGE_VERSION, PLUGIN_REGISTRATION_FN_NAME, TOOLCHAIN_VERSION,
};
use crate::search::search_directories;
use vstd::prelude::*;
use vstd::string::*;

verus! {

/// The libraries configured for one plugin type.
#[derive(Debug)]
struct TypeEntry {
    plugin_type: String,
    libraries: Vec<String>,
}

/// The plugin manager configuration: for each plugin type identifier that
/// it knows, a set of library names.
#[derive(Debug)]
pub struct PluginManagerConfiguration {
    plugins: Vec<TypeEntry>,
}

/// The set of the names in a list of library names.
pub open spec fn library_set(names: Seq<&str>) -> Set<Seq<char>> {
    Set::new(|name: Seq<char>| exists|i: int| 0 <= i < names.len() && (#[trigger] names[i])@ == name)
}

/// The set of the names in a list of owned library names.
pub open spec fn name_set(names: Seq<String>) -> Set<Seq<char>> {
    Set::new(|name: Seq<char>| exists|i: int| 0 <= i < names.len() && (#[trigger] names[i])@ == name)
}

/// No name occurs twice in the list.
pub open spec fn names_distinct(names: Seq<String>) -> bool {
    forall|i: int, j: int|
        0 <= i < j < names.len() ==> (#[trigger] names[i])@ != (#[trigger] names[j])@
}

spec fn has_type(entries: Seq<TypeEntry>, plugin_type: Seq<char>) -> bool {
    exists|i: int| 0 <= i < entries.len() && (#[trigger] entries[i]).plugin_type@ == plugin_type
}

spec fn type_index(entries: Seq<TypeEntry>, plugin_type: Seq<char>) -> int {
    choose|i: int| 0 <= i < entries.len() && (#[trigger] entries[i]).plugin_type@ == plugin_type
}

spec fn types_distinct(entries: Seq<TypeEntry>) -> bool {
    forall|i: int, j: int|
        0 <= i < j < entries.len() ==> (#[trigger] entries[i]).plugin_type@ != (
        #[trigger] entries[j]).plugin_type@
}

spec fn lists_distinct(entries: Seq<TypeEntry>) -> bool {
    forall|i: int| 0 <= i < entries.len() ==> names_distinct((#[trigger] entries[i]).libraries@)
}

spec fn lists_filled(entries: Seq<TypeEntry>) -> bool {
    forall|i: int| 0 <= i < entries.len() ==> (#[trigger] entries[i]).libraries@.len() > 0
}

spec fn config_map(entries: Seq<TypeEntry>) -> Map<Seq<char>, Set<Seq<char>>> {
    Map::new(
        |plugin_type: Seq<char>| has_type(entries, plugin_type),
        |plugin_type: Seq<char>| name_set(entries[type_index(entries, plugin_type)].libraries@),
    )
}

proof fn lemma_lookup(entries: Seq<TypeEntry>, i: int)
    requires
        types_distinct(entries),
        0 <= i < entries.len(),
    ensures
        has_type(entries, entries[i].plugin_type@),
        type_index(entries, entries[i].plugin_type@) == i,
        config_map(entries).contains_key(entries[i].plugin_type@),
        config_map(entries)[entries[i].plugin_type@] == name_set(entries[i].libraries@),
{
    let t = entries[i].plugin_type@;
    let j = type_index(entries, t);
    assert(0 <= j < entries.len() && entries[j].plugin_type@ == t);
}

proof fn lemma_update(entries: Seq<TypeEntry>, i: int, entry: TypeEntry)
    requires
        types_distinct(entries),
        0 <= i < entries.len(),
        entry.plugin_type@ == entries[i].plugin_type@,
    ensures
        types_distinct(entries.update(i, entry)),
        config_map(entries.update(i, entry)) == config_map(entries).insert(
            entry.plugin_type@,
            name_set(entry.libraries@),
        ),
{
    let after = entries.update(i, entry);
    let want = config_map(entries).insert(entry.plugin_type@, name_set(entry.libraries@));
    assert forall|a: int, b: int| 0 <= a < b < after.len() implies (#[trigger] after[a]).plugin_type@
        != (#[trigger] after[b]).plugin_type@ by {
        assert(after[a].plugin_type@ == entries[a].plugin_type@);
        assert(after[b].plugin_type@ == entries[b].plugin_type@);
    }
    assert forall|t: Seq<char>| config_map(after).contains_key(t) <==> want.contains_key(t) by {
        if has_type(after, t) {
            let j = type_index(after, t);
            assert(entries[j].plugin_type@ == t);
        }
        if has_type(entries, t) {
            let j = type_index(entries, t);
            assert(after[j].plugin_type@ == t);
        }
        if t == entry.plugin_type@ {
            assert(after[i].plugin_type@ == t);
        }
    }
    assert forall|t: Seq<char>| config_map(after).contains_key(t) implies config_map(after)[t]
        == want[t] by {
        let j = type_index(after, t);
        lemma_lookup(after, j);
        if j != i {
            assert(entries[j] == after[j]);
            lemma_lookup(entries, j);
        }
    }
    assert(config_map(after) =~= want);
}

proof fn lemma_push(entries: Seq<TypeEntry>, entry: TypeEntry)
    requires
        types_distinct(entries),
        !has_type(entries, entry.plugin_type@),
    ensures
        types_distinct(entries.push(entry)),
        config_map(entries.push(entry)) == config_map(entries).insert(
            entry.plugin_type@,
            name_set(entry.libraries@),
        ),
{
    let after = entries.push(entry);
    let n = entries.len() as int;
    let want = config_map(entries).insert(entry.plugin_type@, name_set(entry.libraries@));
    assert forall|a: int, b: int| 0 <= a < b < after.len() implies (#[trigger] after[a]).plugin_type@
        != (#[trigger] after[b]).plugin_type@ by {
        assert(after[a] == entries[a]);
        if b < n {
            assert(after[b] == entries[b]);
        }
    }
    assert forall|t: Seq<char>| config_map(after).contains_key(t) <==> want.contains_key(t) by {
        if has_type(after, t) {
            let j = type_index(after, t);
            if j < n {
                assert(entries[j].plugin_type@ == t);
            }
        }
        if has_type(entries, t) {
            let j = type_index(entries, t);
            assert(after[j].plugin_type@ == t);
        }
        if t == entry.plugin_type@ {
            assert(after[n].plugin_type@ == t);
        }
    }
    assert forall|t: Seq<char>| config_map(after).contains_key(t) implies config_map(after)[t]
        == want[t] by {
        let j = type_index(after, t);
        lemma_lookup(after, j);
        if j < n {
            assert(entries[j] == after[j]);
            lemma_lookup(entries, j);
        }
    }
    assert(config_map(after) =~= want);
}

proof fn lemma_remove(entries: Seq<TypeEntry>, i: int)
    requires
        types_distinct(entries),
        0 <= i < entries.len(),
    ensures
        types_distinct(entries.remove(i)),
        config_map(entries.remove(i)) == config_map(entries).remove(entries[i].plugin_type@),
{
    let after = entries.remove(i);
    let gone = entries[i].plugin_type@;
    let want = config_map(entries).remove(gone);
    assert forall|a: int, b: int| 0 <= a < b < after.len() implies (#[trigger] after[a]).plugin_type@
        != (#[trigger] after[b]).plugin_type@ by {
        let a0 = if a < i { a } else { a + 1 };
        let b0 = if b < i { b } else { b + 1 };
        assert(after[a] == entries[a0] && after[b] == entries[b0]);
    }
    assert forall|t: Seq<char>| config_map(after).contains_key(t) <==> want.contains_key(t) by {
        if has_type(after, t) {
            let j = type_index(after, t);
            let j0 = if j < i { j } else { j + 1 };
            assert(after[j] == entries[j0]);
            assert(entries[j0].plugin_type@ == t);
            if j0 < i {
                assert(entries[j0].plugin_type@ != entries[i].plugin_type@);
            } else {
                assert(entries[i].plugin_type@ != entries[j0].plugin_type@);
            }
        }
        if has_type(entries, t) && t != gone {
            let j = type_index(entries, t);
            let j1 = if j < i { j } else { j - 1 };
            assert(after[j1] == entries[j]);
            assert(after[j1].plugin_type@ == t);
        }
    }
    assert forall|t: Seq<char>| config_map(after).contains_key(t) implies config_map(after)[t]
        == want[t] by {
        let j = type_index(after, t);
        lemma_lookup(after, j);
        let j0 = if j < i { j } else { j + 1 };
        assert(after[j] == entries[j0]);
        lemma_lookup(entries, j0);
    }
    assert(config_map(after) =~= want);
}

proof fn lemma_size(entries: Seq<TypeEntry>)
    requires
        types_distinct(entries),
    ensures
        config_map(entries).dom().finite(),
        config_map(entries).dom().len() == entries.len(),
    decreases entries.len(),
{
    if entries.len() == 0 {
        assert(config_map(entries) =~= Map::empty());
    } else {
        let front = entries.drop_last();
        let last = entries.last();
        assert forall|a: int, b: int| 0 <= a < b < front.len() implies (#[trigger] front[a]).plugin_type@
            != (#[trigger] front[b]).plugin_type@ by {
            assert(front[a] == entries[a] && front[b] == entries[b]);
        }
        if has_type(front, last.plugin_type@) {
            let j = type_index(front, last.plugin_type@);
            assert(front[j] == entries[j]);
            assert(entries[j].plugin_type@ != entries[entries.len() - 1].plugin_type@);
        }
        lemma_size(front);
        lemma_push(front, last);
        assert(front.push(last) =~= entries);
        assert(!config_map(front).dom().contains(last.plugin_type@));
        assert(config_map(entries).dom() =~= config_map(front).dom().insert(last.plugin_type@));
    }
}

/// A copy of a list of names.
fn copy_names(names: &Vec<String>) -> (r: Vec<String>)
    ensures
        r@.len() == names@.len(),
        forall|i: int| 0 <= i < r@.len() ==> (#[trigger] r@[i])@ == names@[i]@,
        name_set(r@) == name_set(names@),
        names_distinct(names@) ==> names_distinct(r@),
{
    let mut copy: Vec<String> = Vec::new();
    let mut i: usize = 0;
    while i < names.len()
        invariant
            i <= names.len(),
            copy@.len() == i,
            forall|j: int| 0 <= j < i ==> (#[trigger] copy@[j])@ == names@[j]@,
        decreases names.len() - i,
    {
        copy.push(names[i].clone());
        i += 1;
    }
    proof {
        assert forall|name: Seq<char>| name_set(copy@).contains(name) <==> name_set(
            names@,
        ).contains(name) by {
            if name_set(copy@).contains(name) {
                let j = choose|j: int| 0 <= j < copy@.len() && (#[trigger] copy@[j])@ == name;
                assert(names@[j]@ == name);
            }
            if name_set(names@).contains(name) {
                let j = choose|j: int| 0 <= j < names@.len() && (#[trigger] names@[j])@ == name;
                assert(copy@[j]@ == name);
            }
        }
        assert(name_set(copy@) =~= name_set(names@));
        if names_distinct(names@) {
            assert forall|a: int, b: int| 0 <= a < b < copy@.len() implies (#[trigger] copy@[a])@
                != (#[trigger] copy@[b])@ by {
                assert(copy@[a]@ == names@[a]@ && copy@[b]@ == names@[b]@);
            }
        }
    }
    copy
}

/// Whether the list holds this name.
fn holds_name(names: &Vec<String>, name: &String) -> (r: bool)
    ensures
        r == name_set(names@).contains(name@),
{
    let mut i: usize = 0;
    while i < names.len()
        invariant
            i <= names.len(),
            forall|j: int| 0 <= j < i ==> (#[trigger] names@[j])@ != name@,
        decreases names.len() - i,
    {
        if names[i] == *name {
            return true;
        }
        i += 1;
    }
    false
}

/// Add to `names` each name of `more` that it does not hold yet.
fn add_names(names: &mut Vec<String>, more: &[&str])
    requires
        names_distinct(old(names)@),
    ensures
        names_distinct(final(names)@),
        name_set(final(names)@) == name_set(old(names)@).union(library_set(more@)),
        final(names)@.len() >= old(names)@.len(),
        more@.len() > 0 ==> final(names)@.len() > 0,
{
    let ghost start = names@;
    let mut i: usize = 0;
    while i < more.len()
        invariant
            i <= more.len(),
            names_distinct(names@),
            name_set(names@) == name_set(start).union(library_set(more@.take(i as int))),
            names@.len() >= start.len(),
            i > 0 ==> names@.len() > 0,
        decreases more.len() - i,
    {
        let name = String::from_str(more[i]);
        let ghost current = names@;
        let held = holds_name(names, &name);
        if !held {
            names.push(name);
        }
        proof {
            let done = more@.take(i as int);
            let next = more@.take(i + 1);
            assert forall|text: Seq<char>| name_set(names@).contains(text) <==> name_set(
                start,
            ).union(library_set(next)).contains(text) by {
                if name_set(names@).contains(text) {
                    let j = choose|j: int| 0 <= j < names@.len() && (#[trigger] names@[j])@ == text;
                    if j < current.len() {
                        assert(current[j]@ == text);
                        assert(name_set(current).contains(text));
                        if library_set(done).contains(text) {
                            let k = choose|k: int| 0 <= k < done.len() && (#[trigger] done[k])@ == text;
                            assert(next[k]@ == text);
                        }
                    } else {
                        assert(next[i as int]@ == text);
                    }
                }
                if name_set(start).contains(text) {
                    assert(name_set(current).contains(text));
                    let j = choose|j: int| 0 <= j < current.len() && (#[trigger] current[j])@ == text;
                    assert(names@[j]@ == text);
                }
                if library_set(next).contains(text) {
                    let k = choose|k: int| 0 <= k < next.len() && (#[trigger] next[k])@ == text;
                    if k < i {
                        assert(done[k]@ == text);
                        assert(name_set(current).contains(text));
                        let j = choose|j: int|
                            0 <= j < current.len() && (#[trigger] current[j])@ == text;
                        assert(names@[j]@ == text);
                    } else {
                        if held {
                            let j = choose|j: int|
                                0 <= j < current.len() && (#[trigger] current[j])@ == text;
                            assert(names@[j]@ == text);
                        } else {
                            assert(names@[current.len() as int]@ == text);
                        }
                    }
                }
            }
            assert(name_set(names@) =~= name_set(start).union(library_set(next)));
            assert forall|a: int, b: int| 0 <= a < b < names@.len() implies (#[trigger] names@[a])@
                != (#[trigger] names@[b])@ by {
                if b < current.len() {
                    assert(names@[a] == current[a] && names@[b] == current[b]);
                } else {
                    assert(names@[a] == current[a]);
                    assert(!name_set(current).contains(name@));
                }
            }
        }
        i += 1;
    }
    proof {
        assert(more@.take(i as int) =~= more@);
    }
}

impl View for PluginManagerConfiguration {
    type V = Map<Seq<char>, Set<Seq<char>>>;

    /// The configuration as a map from plugin type identifiers to sets of
    /// library names.
    closed spec fn view(&self) -> Map<Seq<char>, Set<Seq<char>>> {
        config_map(self.plugins@)
    }
}

impl Default for PluginManagerConfiguration {
    /// The configuration that knows no plugin type.
    fn default() -> (r: Self)
        ensures
            r.wf(),
            r@ == Map::<Seq<char>, Set<Seq<char>>>::empty(),
    {
        let r = PluginManagerConfiguration { plugins: Vec::new() };
        proof {
            assert(r@ =~= Map::<Seq<char>, Set<Seq<char>>>::empty());
        }
        r
    }
}

impl PluginManagerConfiguration {
    /// The invariant of a configuration: each plugin type has one entry,
    /// which holds at least one library name and each of its names once.
    pub closed spec fn wf(&self) -> bool {
        &&& types_distinct(self.plugins@)
        &&& lists_distinct(self.plugins@)
        &&& lists_filled(self.plugins@)
    }

    /// The place of the entry for this plugin type.
    fn position(&self, plugin_type: &String) -> (r: Option<usize>)
        requires
            self.wf(),
        ensures
            match r {
                Some(i) => {
                    &&& i < self.plugins@.len()
                    &&& self.plugins@[i as int].plugin_type@ == plugin_type@
                    &&& self@.contains_key(plugin_type@)
                    &&& self@[plugin_type@] == name_set(self.plugins@[i as int].libraries@)
                    &&& self.plugins@[i as int].libraries@.len() > 0
                },
                None => !self@.contains_key(plugin_type@),
            },
    {
        let mut i: usize = 0;
        while i < self.plugins.len()
            invariant
                i <= self.plugins.len(),
                self.wf(),
                forall|j: int| 0 <= j < i ==> (#[trigger] self.plugins@[j]).plugin_type@
                    != plugin_type@,
            decreases self.plugins.len() - i,
        {
            if self.plugins[i].plugin_type == *plugin_type {
                proof {
                    lemma_lookup(self.plugins@, i as int);
                }
                return Some(i);
            }
            i += 1;
        }
        None
    }

    /// Returns `true` if the configuration contains no plugin types.
    pub fn is_empty(&self) -> (r: bool)
        requires
            self.wf(),
        ensures
            r == (self@.len() == 0),
    {
        proof {
            lemma_size(self.plugins@);
        }
        self.plugins.is_empty()
    }

    /// Returns the number of plugin types in the configuration.
    pub fn len(&self) -> (r: usize)
        requires
            self.wf(),
        ensures
            self@.dom().finite(),
            r == self@.len(),
    {
        proof {
            lemma_size(self.plugins@);
        }
        self.plugins.len()
    }

    /// Return the plugin type identifiers in the configuration, each once.
    pub fn plugin_types(&self) -> (r: Vec<String>)
        requires
            self.wf(),
        ensures
            r@.len() == self@.len(),
            names_distinct(r@),
            name_set(r@) == self@.dom(),
    {
        let mut types: Vec<String> = Vec::new();
        let mut i: usize = 0;
        while i < self.plugins.len()
            invariant
                i <= self.plugins.len(),
                types@.len() == i,
                forall|j: int| 0 <= j < i ==> (#[trigger] types@[j])@ == self.plugins@[j].plugin_type@,
            decreases self.plugins.len() - i,
        {
            types.push(self.plugins[i].plugin_type.clone());
            i += 1;
        }
        proof {
            lemma_size(self.plugins@);
            assert forall|a: int, b: int| 0 <= a < b < types@.len() implies (#[trigger] types@[a])@
                != (#[trigger] types@[b])@ by {
                assert(self.plugins@[a].plugin_type@ != self.plugins@[b].plugin_type@);
            }
            assert forall|t: Seq<char>| name_set(types@).contains(t) <==> self@.dom().contains(
                t,
            ) by {
                if name_set(types@).contains(t) {
                    let j = choose|j: int| 0 <= j < types@.len() && (#[trigger] types@[j])@ == t;
                    assert(self.plugins@[j].plugin_type@ == t);
                }
                if has_type(self.plugins@, t) {
                    let j = type_index(self.plugins@, t);
                    assert(types@[j]@ == t);
                }
            }
            assert(name_set(types@) =~= self@.dom());
        }
        types
    }

    /// Returns `true` if the configuration has values for the provided
    /// plugin type identifier.
    pub fn contains_plugin_type(&self, plugin_type: &str) -> (r: bool)
        requires
            self.wf(),
        ensures
            r == self@.contains_key(plugin_type@),
    {
        let key = String::from_str(plugin_type);
        self.position(&key).is_some()
    }

    /// Returns the library names specified for the provided plugin type
    /// identifier, each once, or `None` if the configuration has no entry
    /// for the plugin type.
    pub fn plugin_libraries_for_type(&self, plugin_type: &str) -> (r: Option<Vec<String>>)
        requires
            self.wf(),
        ensures
            match r {
                Some(names) => {
                    &&& self@.contains_key(plugin_type@)
                    &&& name_set(names@) == self@[plugin_type@]
                    &&& names_distinct(names@)
                    &&& names@.len() > 0
                },
                None => !self@.contains_key(plugin_type@),
            },
    {
        let key = String::from_str(plugin_type);
        match self.position(&key) {
            Some(i) => Some(copy_names(&self.plugins[i].libraries)),
            None => None,
        }
    }

    /// Insert a list of libraries for the named plugin type. An entry that
    /// exists for this type is replaced, and its libraries are returned.
    pub fn insert(&mut self, plugin_type: &str, library_list: &[&str]) -> (r: Option<
        Vec<String>,
    >)
        requires
            old(self).wf(),
            library_list@.len() > 0,
        ensures
            final(self).wf(),
            final(self)@ == old(self)@.insert(plugin_type@, library_set(library_list@)),
            match r {
                Some(names) => {
                    &&& old(self)@.contains_key(plugin_type@)
                    &&& name_set(names@) == old(self)@[plugin_type@]
                    &&& names_distinct(names@)
                    &&& names@.len() > 0
                },
                None => !old(self)@.contains_key(plugin_type@),
            },
    {
        let key = String::from_str(plugin_type);
        let mut libraries: Vec<String> = Vec::new();
        add_names(&mut libraries, library_list);
        proof {
            assert(name_set(libraries@) =~= library_set(library_list@));
        }
        let mut entry = TypeEntry { plugin_type: key, libraries };
        let found = self.position(&entry.plugin_type);
        match found {
            Some(i) => {
                proof {
                    lemma_update(self.plugins@, i as int, entry);
                }
                self.plugins.set_and_swap(i, &mut entry);
                Some(entry.libraries)
            },
            None => {
                proof {
                    lemma_push(self.plugins@, entry);
                }
                self.plugins.push(entry);
                None
            },
        }
    }

    /// Merge a list of libraries into the configuration for the plugin
    /// type: they are added to the entry that exists for this type, or make
    /// a new entry where none exists.
    pub fn merge(&mut self, plugin_type: &str, library_list: &[&str])
        requires
            old(self).wf(),
            library_list@.len() > 0,
        ensures
            final(self).wf(),
            final(self)@ == old(self)@.insert(
                plugin_type@,
                if old(self)@.contains_key(plugin_type@) {
                    old(self)@[plugin_type@].union(library_set(library_list@))
                } else {
                    library_set(library_list@)
                },
            ),
    {
        let key = String::from_str(plugin_type);
        match self.position(&key) {
            Some(i) => {
                let mut entry = TypeEntry { plugin_type: key, libraries: Vec::new() };
                let ghost before = self.plugins@;
                self.plugins.set_and_swap(i, &mut entry);
                add_names(&mut entry.libraries, library_list);
                proof {
                    lemma_update(self.plugins@, i as int, entry);
                    assert(self.plugins@.update(i as int, entry) =~= before.update(i as int, entry));
                    lemma_update(before, i as int, entry);
                }
                self.plugins.set(i, entry);
            },
            None => {
                let _ = self.insert(plugin_type, library_list);
            },
        }
    }

    /// Removes and returns the plugin libraries for the plugin type.
    pub fn remove(&mut self, plugin_type: &str) -> (r: Option<Vec<String>>)
        requires
            old(self).wf(),
        ensures
            final(self).wf(),
            final(self)@ == old(self)@.remove(plugin_type@),
            match r {
                Some(names) => {
                    &&& old(self)@.contains_key(plugin_type@)
                    &&& name_set(names@) == old(self)@[plugin_type@]
                    &&& names_distinct(names@)
                    &&& names@.len() > 0
                },
                None => !old(self)@.contains_key(plugin_type@),
            },
    {
        let key = String::from_str(plugin_type);
        match self.position(&key) {
            Some(i) => {
                proof {
                    lemma_remove(self.plugins@, i as int);
                }
                let entry = self.plugins.remove(i);
                Some(entry.libraries)
            },
            None => {
                proof {
                    assert(self@.remove(plugin_type@) =~= self@);
                }
                None
            },
        }
    }

    /// Construct a new plugin manager for plugins of type `T`, as `default`
    /// makes it, and return it with the libraries specified for the plugin
    /// type identifier, for the host to load into it one by one. A plugin type that the
    /// configuration does not know is an error.
    pub fn make_manager_for_type<T: Plugin>(&self, plugin_type: &str) -> (r: Result<
        (PluginManager<T>, Vec<String>),
        Error,
    >)
        requires
            self.wf(),
        ensures
            match r {
                Ok((manager, names)) => {
                    &&& self@.contains_key(plugin_type@)
                    &&& name_set(names@) == self@[plugin_type@]
                    &&& names_distinct(names@)
                    &&& names@.len() > 0
                    &&& manager.wf()
                    &&& manager.directory().len() == 0
                    &&& manager.libraries().len() == 0
                    &&& manager.departed().len() == 0
                    &&& search_directories(manager.search()).len() == 0
                    &&& manager.registration_name() == PLUGIN_REGISTRATION_FN_NAME.spec_bytes()
                    &&& manager.host_fingerprint() == fingerprint(
                        PACKAGE_VERSION@,
                        TOOLCHAIN_VERSION@,
                    )
                },
                Err(error) => {
                    &&& !self@.contains_key(plugin_type@)
                    &&& error@ == ErrorKindView::UnknownPluginManagerType(plugin_type@)
                },
            },
    {
        match self.plugin_libraries_for_type(plugin_type) {
            Some(names) => Ok((PluginManager::default(), names)),
            None => Err(Error(ErrorKind::UnknownPluginManagerType(String::from_str(plugin_type)))),
        }
    }
}

/// What was inserted for a plugin type is what removing that type returns:
/// after `insert` the configuration maps the type to exactly the inserted
/// set of libraries, whatever it held before, and after `remove` it no
/// longer knows the type.
pub proof fn law_insert_then_remove(
    before: Map<Seq<char>, Set<Seq<char>>>,
    plugin_type: Seq<char>,
    library_list: Seq<&str>,
)
    ensures
        before.insert(plugin_type, library_set(library_list)).contains_key(plugin_type),
        before.insert(plugin_type, library_set(library_list))[plugin_type] == library_set(
            library_list,
        ),
        !before.insert(plugin_type, library_set(library_list)).remove(plugin_type).contains_key(
            plugin_type,
        ),
        before.insert(plugin_type, library_set(library_list)).remove(plugin_type)
            == before.remove(plugin_type),
{
    assert(before.insert(plugin_type, library_set(library_list)).remove(plugin_type)
        =~= before.remove(plugin_type));
}

} // verus!
