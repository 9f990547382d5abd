//! The key-value commands a published list and the catalog are written
//! with, as data: the library decides what to send, the caller sends it in
//! order. A model of the commands' effect on the store states what a later
//! read gives back.

use vstd::prelude::*;

use crate::catalog::PublishedListCatalog;
use crate::keyed::views;
use crate::published_list::PublishedList;

verus! {

/// One store command.
pub enum StoreCommand {
    /// Remove a key.
    Del(String),
    /// Append values to the list at a key, creating it when absent.
    RPush(String, Vec<String>),
    /// Move the value at the first key to the second, replacing it.
    Rename(String, String),
    /// Set a key to a text value.
    SetText(String, String),
    /// Add members to the set at a key, creating it when absent.
    SAdd(String, Vec<String>),
}

/// A stored value, as the model sees it.
pub enum StoredValue {
    List(Seq<Seq<char>>),
    Text(Seq<char>),
    Members(Set<Seq<char>>),
}

/// A command, its keys and values taken by text.
pub enum CommandModel {
    Del(Seq<char>),
    RPush(Seq<char>, Seq<Seq<char>>),
    Rename(Seq<char>, Seq<char>),
    SetText(Seq<char>, Seq<char>),
    SAdd(Seq<char>, Seq<Seq<char>>),
}

impl View for StoreCommand {
    type V = CommandModel;

    open spec fn view(&self) -> CommandModel {
        match self {
            StoreCommand::Del(k) => CommandModel::Del(k@),
            StoreCommand::RPush(k, vs) => CommandModel::RPush(k@, views(vs@)),
            StoreCommand::Rename(a, b) => CommandModel::Rename(a@, b@),
            StoreCommand::SetText(k, v) => CommandModel::SetText(k@, v@),
            StoreCommand::SAdd(k, vs) => CommandModel::SAdd(k@, views(vs@)),
        }
    }
}

/// The store after one command. A command the store refuses (a push onto a
/// non-list, a rename of a missing key, adding to a non-set) leaves it
/// unchanged.
pub open spec fn apply(store: Map<Seq<char>, StoredValue>, c: CommandModel) -> Map<Seq<char>, StoredValue> {
    match c {
        CommandModel::Del(k) => store.remove(k),
        CommandModel::RPush(k, vs) => if !store.dom().contains(k) {
            store.insert(k, StoredValue::List(vs))
        } else {
            match store[k] {
                StoredValue::List(l) => store.insert(k, StoredValue::List(l + vs)),
                _ => store,
            }
        },
        CommandModel::Rename(a, b) => if store.dom().contains(a) {
            store.remove(a).insert(b, store[a])
        } else {
            store
        },
        CommandModel::SetText(k, v) => store.insert(k, StoredValue::Text(v)),
        CommandModel::SAdd(k, vs) => if !store.dom().contains(k) {
            store.insert(k, StoredValue::Members(vs.to_set()))
        } else {
            match store[k] {
                StoredValue::Members(m) => store.insert(k, StoredValue::Members(m + vs.to_set())),
                _ => store,
            }
        },
    }
}

/// The store after the commands, in order.
pub open spec fn apply_all(store: Map<Seq<char>, StoredValue>, cs: Seq<CommandModel>) -> Map<
    Seq<char>,
    StoredValue,
>
    decreases cs.len(),
{
    if cs.len() == 0 {
        store
    } else {
        apply(apply_all(store, cs.drop_last()), cs.last())
    }
}

/// What reading the whole list at `key` gives: its values in order, empty
/// when the key is absent.
pub open spec fn read_list(store: Map<Seq<char>, StoredValue>, key: Seq<char>) -> Seq<Seq<char>> {
    if store.dom().contains(key) {
        match store[key] {
            StoredValue::List(l) => l,
            _ => Seq::empty(),
        }
    } else {
        Seq::empty()
    }
}

/// What reading the members of the set at `key` gives: empty when absent.
pub open spec fn read_members(store: Map<Seq<char>, StoredValue>, key: Seq<char>) -> Set<Seq<char>> {
    if store.dom().contains(key) {
        match store[key] {
            StoredValue::Members(m) => m,
            _ => Set::empty(),
        }
    } else {
        Set::empty()
    }
}

/// The commands that replace a list with `entries` and record `refreshed_at`.
pub open spec fn spec_replace_commands(list: PublishedList, entries: Seq<Seq<char>>, refreshed_at: Seq<char>) -> Seq<
    CommandModel,
> {
    let name = list.spec_name();
    let building = name + ":building"@;
    let stamp = CommandModel::SetText(name + ":refreshed-at"@, refreshed_at);
    if entries.len() == 0 {
        seq![CommandModel::Del(building), CommandModel::Del(name), stamp]
    } else {
        seq![
            CommandModel::Del(building),
            CommandModel::RPush(building, entries),
            CommandModel::Rename(building, name),
            stamp,
        ]
    }
}

impl PublishedList {
    /// Replace the list with `entries` (encoded, in order) and record
    /// `refreshed_at` as its publish time: clear any leftover scratch key,
    /// build the new list in the scratch key and rename it over the list, so
    /// a reader sees the whole old list or the whole new one; an empty list
    /// deletes the key. The publish time is written last, so a reader racing
    /// the swap never sees a newer time beside an old list.
    pub fn replace_commands(&self, entries: Vec<String>, refreshed_at: String) -> (cs: Vec<StoreCommand>)
        ensures
            cs@.map_values(|c: StoreCommand| c@) == spec_replace_commands(*self, views(entries@), refreshed_at@),
    {
        let ghost entry_views = views(entries@);
        let ghost stamp = refreshed_at@;
        let mut cs: Vec<StoreCommand> = Vec::new();
        cs.push(StoreCommand::Del(self.building_key()));
        if entries.len() == 0 {
            cs.push(StoreCommand::Del(self.name()));
        } else {
            cs.push(StoreCommand::RPush(self.building_key(), entries));
            cs.push(StoreCommand::Rename(self.building_key(), self.name()));
        }
        cs.push(StoreCommand::SetText(self.refreshed_at_key(), refreshed_at));
        proof {
            let m = cs@.map_values(|c: StoreCommand| c@);
            assert(m =~= spec_replace_commands(*self, entry_views, stamp));
        }
        cs
    }
}

/// The commands that make the catalog hold exactly `names`.
pub open spec fn spec_catalog_commands(names: Seq<Seq<char>>) -> Seq<CommandModel> {
    let key = crate::published::SCHEMA_VERSION@ + "-feed-catalog"@;
    if names.len() == 0 {
        seq![CommandModel::Del(key)]
    } else {
        seq![CommandModel::Del(key), CommandModel::SAdd(key, names)]
    }
}

impl PublishedListCatalog {
    /// Replace the catalog with exactly `lists`; no lists deletes the key.
    pub fn write_commands(lists: &Vec<PublishedList>) -> (cs: Vec<StoreCommand>)
        ensures
            cs@.map_values(|c: StoreCommand| c@) == spec_catalog_commands(
                lists@.map_values(|l: PublishedList| l.spec_name()),
            ),
    {
        let names = PublishedListCatalog::member_names(lists);
        let ghost name_views = views(names@);
        let mut cs: Vec<StoreCommand> = Vec::new();
        cs.push(StoreCommand::Del(PublishedListCatalog::key()));
        if lists.len() > 0 {
            cs.push(StoreCommand::SAdd(PublishedListCatalog::key(), names));
        }
        proof {
            assert(name_views =~= lists@.map_values(|l: PublishedList| l.spec_name()));
            assert(cs@.map_values(|c: StoreCommand| c@) =~= spec_catalog_commands(name_views));
        }
        cs
    }
}

proof fn lemma_keys_distinct(name: Seq<char>)
    ensures
        name != name + ":building"@,
        name != name + ":refreshed-at"@,
        name + ":building"@ != name + ":refreshed-at"@,
{
    reveal_strlit(":building");
    reveal_strlit(":refreshed-at");
    assert((name + ":building"@).len() != name.len());
    assert((name + ":refreshed-at"@).len() != name.len());
    assert((name + ":building"@).len() != (name + ":refreshed-at"@).len());
}

proof fn lemma_apply_step(store: Map<Seq<char>, StoredValue>, cs: Seq<CommandModel>, k: int)
    requires
        0 <= k < cs.len(),
    ensures
        apply_all(store, cs.take(k + 1)) == apply(apply_all(store, cs.take(k)), cs[k]),
        apply_all(store, cs.take(0)) == store,
{
    assert(cs.take(k + 1).drop_last() =~= cs.take(k));
    assert(cs.take(k + 1).last() == cs[k]);
    assert(cs.take(0) =~= Seq::<CommandModel>::empty());
}

/// Whatever the store held before, replacing a list and then reading it
/// gives back exactly the entries written, in order (nothing for an empty
/// replace); no scratch key is left behind, and the publish time reads back
/// as written.
pub proof fn lemma_replace_then_read(
    store: Map<Seq<char>, StoredValue>,
    list: PublishedList,
    entries: Seq<Seq<char>>,
    refreshed_at: Seq<char>,
)
    ensures
        ({
            let after = apply_all(store, spec_replace_commands(list, entries, refreshed_at));
            &&& read_list(after, list.spec_name()) == entries
            &&& !after.dom().contains(list.spec_name() + ":building"@)
            &&& after.dom().contains(list.spec_name() + ":refreshed-at"@)
            &&& after[list.spec_name() + ":refreshed-at"@] == StoredValue::Text(refreshed_at)
        }),
{
    let name = list.spec_name();
    let building = name + ":building"@;
    let stamp_key = name + ":refreshed-at"@;
    lemma_keys_distinct(name);
    let cs = spec_replace_commands(list, entries, refreshed_at);
    lemma_apply_step(store, cs, 0);
    lemma_apply_step(store, cs, 1);
    lemma_apply_step(store, cs, 2);
    let s1 = apply(store, cs[0]);
    let s2 = apply(s1, cs[1]);
    let s3 = apply(s2, cs[2]);
    if entries.len() == 0 {
        assert(cs.take(3) =~= cs);
        assert(!s3.dom().contains(name));
    } else {
        lemma_apply_step(store, cs, 3);
        assert(cs.take(4) =~= cs);
        assert(s2[building] == StoredValue::List(entries));
        assert(s3[name] == StoredValue::List(entries));
        assert(!s3.dom().contains(building));
    }
}

/// Whatever the store held before, writing the catalog and then reading its
/// members gives exactly the names of the lists written.
pub proof fn lemma_catalog_write_then_read(store: Map<Seq<char>, StoredValue>, lists: Seq<PublishedList>)
    ensures
        read_members(
            apply_all(store, spec_catalog_commands(lists.map_values(|l: PublishedList| l.spec_name()))),
            crate::published::SCHEMA_VERSION@ + "-feed-catalog"@,
        ) == lists.map_values(|l: PublishedList| l.spec_name()).to_set(),
{
    let names = lists.map_values(|l: PublishedList| l.spec_name());
    let key = crate::published::SCHEMA_VERSION@ + "-feed-catalog"@;
    let cs = spec_catalog_commands(names);
    lemma_apply_step(store, cs, 0);
    if names.len() == 0 {
        assert(cs.take(1) =~= cs);
        assert(names.to_set() =~= Set::<Seq<char>>::empty());
    } else {
        lemma_apply_step(store, cs, 1);
        assert(cs.take(2) =~= cs);
        assert(Set::<Seq<char>>::empty() + names.to_set() =~= names.to_set());
    }
}

/// A catalog written with lists of non-zero windows reads back as those
/// lists: its members are exactly their names, and each name parses back
/// to its list.
pub proof fn lemma_catalog_roundtrip(store: Map<Seq<char>, StoredValue>, lists: Seq<PublishedList>)
    requires
        forall|i: int| 0 <= i < lists.len() ==> (#[trigger] lists[i]).limit_of().count_of() > 0,
    ensures
        ({
            let names = lists.map_values(|l: PublishedList| l.spec_name());
            let members = read_members(
                apply_all(store, spec_catalog_commands(names)),
                crate::published::SCHEMA_VERSION@ + "-feed-catalog"@,
            );
            &&& forall|m: Seq<char>| #[trigger] members.contains(m) <==> exists|i: int|
                0 <= i < lists.len() && lists[i].spec_name() == m
            &&& forall|i: int| 0 <= i < lists.len() ==> (#[trigger] lists[i]).spec_name_parses_from(lists[i].spec_name())
        }),
{
    let names = lists.map_values(|l: PublishedList| l.spec_name());
    lemma_catalog_write_then_read(store, lists);
    assert forall|m: Seq<char>| names.to_set().contains(m) <==> exists|i: int|
        0 <= i < lists.len() && lists[i].spec_name() == m by {
        if names.to_set().contains(m) {
            let i = choose|i: int| 0 <= i < names.len() && names[i] == m;
            assert(lists[i].spec_name() == m);
        }
        if exists|i: int| 0 <= i < lists.len() && lists[i].spec_name() == m {
            let i = choose|i: int| 0 <= i < lists.len() && lists[i].spec_name() == m;
            assert(names[i] == m);
        }
    }
    assert forall|i: int| 0 <= i < lists.len() implies (#[trigger] lists[i]).spec_name_parses_from(
        lists[i].spec_name(),
    ) by {
        crate::published_list::lemma_name_roundtrip(lists[i]);
    }
}

} // verus!
