//! The directory of loaded plugins as a mathematical object: its records,
//! the slots of the libraries that the records point at, and what
//! installing and unloading do to both.

use crate::error::{CauseView, Error, ErrorKindView};
use crate::library::LoadedLibrary;
use crate::plugin::Plugin;
use std::sync::Arc;
use vstd::prelude::*;

verus! {

/// One record of the directory: a plugin and the library that produced it,
/// named by the slot in which the manager keeps that library.
#[derive(Debug)]
pub struct LoadedPlugin<T: Plugin> {
    pub plugin: Arc<T>,
    pub library: usize,
}

/// Whether some record of `entries` holds a plugin with this identifier.
pub open spec fn has_id<T: Plugin>(entries: Seq<LoadedPlugin<T>>, id: Seq<char>) -> bool {
    exists|i: int| 0 <= i < entries.len() && (#[trigger] entries[i]).plugin.id() == id
}

/// The place in `entries` of the plugin with this identifier.
pub open spec fn index_of<T: Plugin>(entries: Seq<LoadedPlugin<T>>, id: Seq<char>) -> int {
    choose|i: int| 0 <= i < entries.len() && (#[trigger] entries[i]).plugin.id() == id
}

/// No two records of `entries` hold plugins with the same identifier.
pub open spec fn ids_distinct<T: Plugin>(entries: Seq<LoadedPlugin<T>>) -> bool {
    forall|i: int, j: int|
        0 <= i < j < entries.len() ==> (#[trigger] entries[i]).plugin.id() != (
        #[trigger] entries[j]).plugin.id()
}

/// Whether some record of `entries` points at the library in `slot`.
pub open spec fn referenced<T: Plugin>(entries: Seq<LoadedPlugin<T>>, slot: int) -> bool {
    exists|i: int| 0 <= i < entries.len() && (#[trigger] entries[i]).library == slot
}

/// Whether the slot holds a library that was opened from `path`.
pub open spec fn slot_holds(slot: Option<LoadedLibrary>, path: Seq<char>) -> bool {
    match slot {
        Some(library) => library.path() == path,
        None => false,
    }
}

/// The first empty slot of `libraries`, or their number where none is empty.
pub open spec fn free_slot(libraries: Seq<Option<LoadedLibrary>>) -> int {
    if exists|i: int| 0 <= i < libraries.len() && libraries[i] is None {
        choose|i: int|
            0 <= i < libraries.len() && libraries[i] is None && forall|j: int|
                0 <= j < i ==> libraries[j] is Some
    } else {
        libraries.len() as int
    }
}

/// The slots once `library` is put into the first empty one, or into a new
/// last slot where none is empty.
pub open spec fn placed(libraries: Seq<Option<LoadedLibrary>>, library: LoadedLibrary) -> Seq<
    Option<LoadedLibrary>,
> {
    if free_slot(libraries) < libraries.len() {
        libraries.update(free_slot(libraries), Some(library))
    } else {
        libraries.push(Some(library))
    }
}

/// The slots once the records went from `before` to `after`: a library
/// that was pointed at and no longer is has left its slot, every other slot
/// is as it was.
pub open spec fn released<T: Plugin>(
    libraries: Seq<Option<LoadedLibrary>>,
    before: Seq<LoadedPlugin<T>>,
    after: Seq<LoadedPlugin<T>>,
) -> Seq<Option<LoadedLibrary>> {
    Seq::new(
        libraries.len(),
        |slot: int|
            if referenced(before, slot) && !referenced(after, slot) {
                None
            } else {
                libraries[slot]
            },
    )
}

/// The directory once `plugin`, which came from the library in `slot`, is
/// installed: it takes the place of the record with its identifier, or the
/// last place where there is no such record.
pub open spec fn installed_one<T: Plugin>(
    entries: Seq<LoadedPlugin<T>>,
    plugin: Arc<T>,
    slot: usize,
) -> Seq<LoadedPlugin<T>> {
    if has_id(entries, plugin.id()) {
        entries.update(index_of(entries, plugin.id()), (LoadedPlugin { plugin, library: slot }))
    } else {
        entries.push((LoadedPlugin { plugin, library: slot }))
    }
}

/// The directory once `plugins`, which all came from the library in `slot`,
/// are installed one after the other.
pub open spec fn installed<T: Plugin>(
    entries: Seq<LoadedPlugin<T>>,
    plugins: Seq<Arc<T>>,
    slot: usize,
) -> Seq<LoadedPlugin<T>>
    decreases plugins.len(),
{
    if plugins.len() == 0 {
        entries
    } else {
        installed_one(installed(entries, plugins.drop_last(), slot), plugins.last(), slot)
    }
}

/// Installing a plugin keeps identifiers unique, makes its library pointed
/// at, and makes no other library pointed at that was not before.
pub proof fn lemma_installed_one<T: Plugin>(
    entries: Seq<LoadedPlugin<T>>,
    plugin: Arc<T>,
    slot: usize,
)
    requires
        ids_distinct(entries),
    ensures
        ids_distinct(installed_one(entries, plugin, slot)),
        has_id(installed_one(entries, plugin, slot), plugin.id()),
        referenced(installed_one(entries, plugin, slot), slot as int),
        forall|x: int|
            x != slot && referenced(installed_one(entries, plugin, slot), x) ==> referenced(
                entries,
                x,
            ),
        forall|id: Seq<char>|
            has_id(entries, id) ==> has_id(installed_one(entries, plugin, slot), id),
{
    let after = installed_one(entries, plugin, slot);
    let k = if has_id(entries, plugin.id()) {
        index_of(entries, plugin.id())
    } else {
        entries.len() as int
    };
    assert(after[k].library == slot && after[k].plugin.id() == plugin.id());
    assert forall|x: int| x != slot && referenced(after, x) implies referenced(entries, x) by {
        let i = choose|i: int| 0 <= i < after.len() && (#[trigger] after[i]).library == x;
        assert(i != k);
        assert(entries[i].library == x);
    }
    assert forall|id: Seq<char>| has_id(entries, id) implies has_id(after, id) by {
        let i = choose|i: int| 0 <= i < entries.len() && (#[trigger] entries[i]).plugin.id() == id;
        assert(after[i].plugin.id() == id);
    }
    assert forall|i: int, j: int| 0 <= i < j < after.len() implies (#[trigger] after[i]).plugin.id()
        != (#[trigger] after[j]).plugin.id() by {
        if i < entries.len() {
            assert(after[i].plugin.id() == entries[i].plugin.id());
        }
        if j < entries.len() {
            assert(after[j].plugin.id() == entries[j].plugin.id());
        }
    }
}

/// Releasing in two steps is releasing in one, where the libraries pointed
/// at only dwindle from the second list of records on and none that had
/// lost its records gains one.
pub proof fn lemma_released_twice<T: Plugin>(
    libraries: Seq<Option<LoadedLibrary>>,
    first: Seq<LoadedPlugin<T>>,
    second: Seq<LoadedPlugin<T>>,
    third: Seq<LoadedPlugin<T>>,
)
    requires
        forall|x: int| referenced(second, x) && !referenced(third, x) ==> referenced(first, x),
        forall|x: int| referenced(first, x) && !referenced(second, x) ==> !referenced(third, x),
    ensures
        released(released(libraries, first, second), second, third) == released(
            libraries,
            first,
            third,
        ),
{
    assert(released(released(libraries, first, second), second, third) =~= released(
        libraries,
        first,
        third,
    ));
}

/// A library is pointed at by the records of two lists taken together
/// exactly when a record of one of them points at it.
pub proof fn lemma_referenced_in_both<T: Plugin>(
    first: Seq<LoadedPlugin<T>>,
    second: Seq<LoadedPlugin<T>>,
)
    ensures
        forall|x: int| #[trigger]
            referenced(first + second, x) <==> referenced(first, x) || referenced(second, x),
{
    let both = first + second;
    assert forall|x: int| #[trigger]
        referenced(both, x) <==> referenced(first, x) || referenced(second, x) by {
        if referenced(both, x) {
            let i = choose|i: int| 0 <= i < both.len() && (#[trigger] both[i]).library == x;
            if i < first.len() {
                assert(first[i].library == x);
            } else {
                assert(second[i - first.len()].library == x);
            }
        }
        if referenced(first, x) {
            let i = choose|i: int| 0 <= i < first.len() && (#[trigger] first[i]).library == x;
            assert(both[i].library == x);
        }
        if referenced(second, x) {
            let i = choose|i: int| 0 <= i < second.len() && (#[trigger] second[i]).library == x;
            assert(both[i + first.len()].library == x);
        }
    }
}

/// Whether every library that a record of `now` points at is one that a
/// record of `before` points at.
pub open spec fn slots_within<T: Plugin>(
    now: Seq<LoadedPlugin<T>>,
    before: Seq<LoadedPlugin<T>>,
) -> bool {
    forall|x: int| referenced(now, x) ==> referenced(before, x)
}

/// Whether a library that was opened from `path` has left its slot between
/// `before` and `after`.
pub open spec fn library_left(
    before: Seq<Option<LoadedLibrary>>,
    after: Seq<Option<LoadedLibrary>>,
    path: Seq<char>,
) -> bool {
    exists|slot: int|
        0 <= slot < before.len() && slot < after.len() && slot_holds(#[trigger] before[slot], path)
            && after[slot] is None
}

/// A record that is left after one was removed, or after the first ones
/// were dropped, was there before: so was every library pointed at.
pub proof fn lemma_fewer_records<T: Plugin>(entries: Seq<LoadedPlugin<T>>, i: int)
    requires
        0 <= i < entries.len(),
    ensures
        forall|x: int| referenced(entries.remove(i), x) ==> referenced(entries, x),
        forall|x: int| referenced(entries.skip(i), x) ==> referenced(entries, x),
        forall|x: int|
            x != entries[i].library && referenced(entries, x) ==> referenced(entries.remove(i), x),
        ids_distinct(entries) ==> ids_distinct(entries.remove(i)),
        ids_distinct(entries) ==> !has_id(entries.remove(i), entries[i].plugin.id()),
{
    let fewer = entries.remove(i);
    let rest = entries.skip(i);
    assert forall|x: int| referenced(fewer, x) implies referenced(entries, x) by {
        let j = choose|j: int| 0 <= j < fewer.len() && (#[trigger] fewer[j]).library == x;
        if j < i {
            assert(entries[j].library == x);
        } else {
            assert(entries[j + 1].library == x);
        }
    }
    assert forall|x: int| referenced(rest, x) implies referenced(entries, x) by {
        let j = choose|j: int| 0 <= j < rest.len() && (#[trigger] rest[j]).library == x;
        assert(entries[j + i].library == x);
    }
    assert forall|x: int| x != entries[i].library && referenced(entries, x) implies referenced(
        fewer,
        x,
    ) by {
        let j = choose|j: int| 0 <= j < entries.len() && (#[trigger] entries[j]).library == x;
        if j < i {
            assert(fewer[j].library == x);
        } else {
            assert(fewer[j - 1].library == x);
        }
    }
    if ids_distinct(entries) {
        assert forall|a: int, b: int| 0 <= a < b < fewer.len() implies (#[trigger] fewer[a]).plugin.id()
            != (#[trigger] fewer[b]).plugin.id() by {
            let a0 = if a < i { a } else { a + 1 };
            let b0 = if b < i { b } else { b + 1 };
            assert(fewer[a] == entries[a0] && fewer[b] == entries[b0]);
        }
        if has_id(fewer, entries[i].plugin.id()) {
            let j = choose|j: int|
                0 <= j < fewer.len() && (#[trigger] fewer[j]).plugin.id() == entries[i].plugin.id();
            let j0 = if j < i { j } else { j + 1 };
            assert(fewer[j] == entries[j0]);
            if j0 < i {
                assert(entries[j0].plugin.id() != entries[i].plugin.id());
            } else {
                assert(entries[i].plugin.id() != entries[j0].plugin.id());
            }
        }
    }
}

/// Whether `r` can be what unloading `plugin` returns, where the slots went
/// from `before` to `after`: the failure of its `on_unload`, or after its
/// success the failure to close a library that left its slot, or success.
pub open spec fn unload_result<T: Plugin>(
    plugin: Arc<T>,
    before: Seq<Option<LoadedLibrary>>,
    after: Seq<Option<LoadedLibrary>>,
    r: Result<(), Error>,
) -> bool {
    match r {
        Ok(_) => call_ensures(T::on_unload, (&*plugin,), Ok::<(), Error>(())),
        Err(error) => {
            ||| call_ensures(T::on_unload, (&*plugin,), Err::<(), Error>(error))
            ||| {
                &&& call_ensures(T::on_unload, (&*plugin,), Ok::<(), Error>(()))
                &&& close_failure(before, after, error@)
            }
        },
    }
}

/// Whether `error` is the failure to close a library that left its slot
/// between `before` and `after`.
pub open spec fn close_failure(
    before: Seq<Option<LoadedLibrary>>,
    after: Seq<Option<LoadedLibrary>>,
    error: ErrorKindView,
) -> bool {
    match error {
        ErrorKindView::LibraryCloseFailed(path, CauseView::Loader(_)) => library_left(
            before,
            after,
            path,
        ),
        _ => false,
    }
}

/// Whether every record of `records` points at a slot of `libraries` that
/// holds an open library.
pub open spec fn points_at_open<T: Plugin>(
    records: Seq<LoadedPlugin<T>>,
    libraries: Seq<Option<LoadedLibrary>>,
) -> bool {
    forall|i: int|
        0 <= i < records.len() ==> {
            &&& (#[trigger] records[i]).library < libraries.len()
            &&& libraries[records[i].library as int] is Some
        }
}

/// Where every library that was pointed at still is, none is released.
pub proof fn lemma_nothing_released<T: Plugin>(
    libraries: Seq<Option<LoadedLibrary>>,
    before: Seq<LoadedPlugin<T>>,
    after: Seq<LoadedPlugin<T>>,
)
    requires
        slots_within(before, after),
    ensures
        released(libraries, before, after) == libraries,
{
    assert(released(libraries, before, after) =~= libraries);
}

/// Where the records lose one that pointed at `home` and every other
/// library that was pointed at still is, releasing comes to emptying the
/// slot `home` if no record points at it any more.
pub proof fn lemma_one_released<T: Plugin>(
    libraries: Seq<Option<LoadedLibrary>>,
    before: Seq<LoadedPlugin<T>>,
    after: Seq<LoadedPlugin<T>>,
    home: int,
)
    requires
        0 <= home < libraries.len(),
        referenced(before, home),
        forall|x: int| x != home && referenced(before, x) ==> referenced(after, x),
    ensures
        referenced(after, home) ==> released(libraries, before, after) == libraries,
        !referenced(after, home) ==> released(libraries, before, after) == libraries.update(
            home,
            None,
        ),
{
    if referenced(after, home) {
        assert(released(libraries, before, after) =~= libraries);
    } else {
        assert(released(libraries, before, after) =~= libraries.update(home, None));
    }
}

/// A library that left its slot after a release had been in that slot
/// before the release.
pub proof fn lemma_left_earlier<T: Plugin>(
    libraries: Seq<Option<LoadedLibrary>>,
    before: Seq<LoadedPlugin<T>>,
    after: Seq<LoadedPlugin<T>>,
    later: Seq<Option<LoadedLibrary>>,
    path: Seq<char>,
)
    requires
        library_left(released(libraries, before, after), later, path),
    ensures
        library_left(libraries, later, path),
{
    let middle = released(libraries, before, after);
    let slot = choose|slot: int|
        0 <= slot < middle.len() && slot < later.len() && slot_holds(#[trigger] middle[slot], path)
            && later[slot] is None;
    assert(slot_holds(libraries[slot], path));
}

/// The library that leaves the slot `home` once `after` are the records
/// that are left: the one in that slot, if none of them points at it.
pub open spec fn library_gone<T: Plugin>(
    libraries: Seq<Option<LoadedLibrary>>,
    after: Seq<LoadedPlugin<T>>,
    home: int,
) -> Option<LoadedLibrary> {
    if referenced(after, home) {
        None
    } else {
        libraries[home]
    }
}

/// The number of records of `entries` that point at the library in `slot`:
/// the reference count of that library.
pub open spec fn reference_count<T: Plugin>(entries: Seq<LoadedPlugin<T>>, slot: int) -> nat
    decreases entries.len(),
{
    if entries.len() == 0 {
        0
    } else {
        reference_count(entries.drop_last(), slot) + if entries.last().library == slot {
            1nat
        } else {
            0nat
        }
    }
}

/// A library is pointed at exactly when its reference count is not zero.
pub proof fn law_reference_count_positive<T: Plugin>(entries: Seq<LoadedPlugin<T>>, slot: int)
    ensures
        referenced(entries, slot) <==> reference_count(entries, slot) > 0,
    decreases entries.len(),
{
    if entries.len() > 0 {
        let front = entries.drop_last();
        law_reference_count_positive(front, slot);
        if referenced(entries, slot) {
            let i = choose|i: int| 0 <= i < entries.len() && (#[trigger] entries[i]).library == slot;
            if i < front.len() {
                assert(front[i].library == slot);
            }
        }
        if referenced(front, slot) {
            let i = choose|i: int| 0 <= i < front.len() && (#[trigger] front[i]).library == slot;
            assert(entries[i].library == slot);
        }
        if entries.last().library == slot {
            assert(entries[entries.len() - 1].library == slot);
        }
    }
}

/// Removing a record takes one from the reference count of the library
/// that it pointed at, and leaves every other count as it was.
pub proof fn law_reference_count_remove<T: Plugin>(
    entries: Seq<LoadedPlugin<T>>,
    i: int,
    slot: int,
)
    requires
        0 <= i < entries.len(),
    ensures
        reference_count(entries, slot) == reference_count(entries.remove(i), slot) + if entries[i].library
            == slot {
            1nat
        } else {
            0nat
        },
    decreases entries.len(),
{
    if i == entries.len() - 1 {
        assert(entries.remove(i) =~= entries.drop_last());
    } else {
        let front = entries.drop_last();
        law_reference_count_remove(front, i, slot);
        assert(entries.remove(i).drop_last() =~= front.remove(i));
        assert(entries.remove(i).last() == entries.last());
    }
}

/// The reference count decides when a library is released, where the
/// records are those of the directory and those of the plugins that left
/// it while they were held elsewhere. When the record at place `i` goes,
/// the library that it pointed at leaves its slot if this was the last
/// record to point at it, and stays where another still points at it; no
/// other slot changes.
pub proof fn law_last_reference_closes<T: Plugin>(
    libraries: Seq<Option<LoadedLibrary>>,
    entries: Seq<LoadedPlugin<T>>,
    i: int,
)
    requires
        0 <= i < entries.len(),
        entries[i].library < libraries.len(),
    ensures
        reference_count(entries, entries[i].library as int) >= 1,
        reference_count(entries, entries[i].library as int) == 1 ==> released(
            libraries,
            entries,
            entries.remove(i),
        )[entries[i].library as int] is None,
        reference_count(entries, entries[i].library as int) >= 2 ==> released(
            libraries,
            entries,
            entries.remove(i),
        )[entries[i].library as int] == libraries[entries[i].library as int],
        forall|x: int|
            0 <= x < libraries.len() && x != entries[i].library ==> released(
                libraries,
                entries,
                entries.remove(i),
            )[x] == libraries[x],
{
    let home = entries[i].library as int;
    law_reference_count_remove(entries, i, home);
    law_reference_count_positive(entries, home);
    law_reference_count_positive(entries.remove(i), home);
    lemma_fewer_records(entries, i);
    assert(referenced(entries, home));
}

/// Two plugins that came from one library, are its only records and are
/// held nowhere else: unloading the first leaves the library in its slot,
/// and unloading the second empties the slot; no other slot changes.
pub proof fn law_two_plugins_share_a_library<T: Plugin>(
    libraries: Seq<Option<LoadedLibrary>>,
    first: LoadedPlugin<T>,
    second: LoadedPlugin<T>,
)
    requires
        first.library == second.library,
        first.library < libraries.len(),
    ensures
        released(libraries, seq![first, second], seq![second]) == libraries,
        released(libraries, seq![second], Seq::empty()) == libraries.update(
            second.library as int,
            None,
        ),
{
    let both = seq![first, second];
    let one = seq![second];
    let none = Seq::<LoadedPlugin<T>>::empty();
    let home = second.library as int;
    assert(one[0].library == home);
    assert(both[0].library == home);
    assert forall|x: int| referenced(both, x) implies referenced(one, x) by {
        let i = choose|i: int| 0 <= i < both.len() && (#[trigger] both[i]).library == x;
        assert(x == home);
    }
    assert forall|x: int| x != home implies !referenced(one, x) by {
        if referenced(one, x) {
            let i = choose|i: int| 0 <= i < one.len() && (#[trigger] one[i]).library == x;
            assert(one[i].library == home);
        }
    }
    assert(released(libraries, both, one) =~= libraries);
    assert(released(libraries, one, none) =~= libraries.update(home, None));
}

/// Every plugin of a registration that went through is found in the
/// directory under its identifier, and identifiers stay unique.
pub proof fn law_installed_plugins_are_found<T: Plugin>(
    entries: Seq<LoadedPlugin<T>>,
    plugins: Seq<Arc<T>>,
    slot: usize,
    j: int,
)
    requires
        ids_distinct(entries),
        0 <= j < plugins.len(),
    ensures
        ids_distinct(installed(entries, plugins, slot)),
        has_id(installed(entries, plugins, slot), plugins[j].id()),
        installed(entries, plugins, slot)[index_of(
            installed(entries, plugins, slot),
            plugins[j].id(),
        )].plugin.id() == plugins[j].id(),
    decreases plugins.len(),
{
    let front = plugins.drop_last();
    lemma_installed_distinct(entries, front, slot);
    lemma_installed_one(installed(entries, front, slot), plugins.last(), slot);
    if j < front.len() {
        law_installed_plugins_are_found(entries, front, slot, j);
        assert(front[j] == plugins[j]);
    }
}

/// Installing plugins keeps identifiers unique.
pub proof fn lemma_installed_distinct<T: Plugin>(
    entries: Seq<LoadedPlugin<T>>,
    plugins: Seq<Arc<T>>,
    slot: usize,
)
    requires
        ids_distinct(entries),
    ensures
        ids_distinct(installed(entries, plugins, slot)),
    decreases plugins.len(),
{
    if plugins.len() > 0 {
        lemma_installed_distinct(entries, plugins.drop_last(), slot);
        lemma_installed_one(installed(entries, plugins.drop_last(), slot), plugins.last(), slot);
    }
}

/// The first empty slot is the one before which every slot is taken.
pub proof fn lemma_free_slot(libraries: Seq<Option<LoadedLibrary>>, i: int)
    requires
        0 <= i <= libraries.len(),
        forall|j: int| 0 <= j < i ==> libraries[j] is Some,
        i < libraries.len() ==> libraries[i] is None,
    ensures
        free_slot(libraries) == i,
{
    if i < libraries.len() {
        let k = free_slot(libraries);
        assert(libraries[i] is None);
        assert(0 <= k < libraries.len() && libraries[k] is None && forall|j: int|
            0 <= j < k ==> libraries[j] is Some);
        if k < i {
            assert(libraries[k] is Some);
        }
        if i < k {
            assert(libraries[i] is Some);
        }
    }
}

/// Where identifiers are unique, the record at place `i` is the one that
/// its plugin's identifier is found at.
pub proof fn lemma_index_of<T: Plugin>(entries: Seq<LoadedPlugin<T>>, i: int)
    requires
        ids_distinct(entries),
        0 <= i < entries.len(),
    ensures
        has_id(entries, entries[i].plugin.id()),
        index_of(entries, entries[i].plugin.id()) == i,
{
    let id = entries[i].plugin.id();
    let j = index_of(entries, id);
    assert(0 <= j < entries.len() && entries[j].plugin.id() == id);
}

} // verus!
