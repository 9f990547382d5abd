//! The set of published lists the publisher currently writes, kept in redis so
//! consumers can discover the available feeds.

use vstd::prelude::*;

use crate::published::SCHEMA_VERSION;
use crate::published_list::{list_name_grammar, PublishedList};
use crate::text::{push_str, string_of};

verus! {

/// The catalog of published lists: a redis SET of list names under a single
/// schema-versioned key. Membership is all it records, not order.
pub struct PublishedListCatalog;

/// The names of the members that parse as published-list names, in order.
pub open spec fn parseable_members(names: Seq<Seq<char>>) -> Seq<Seq<char>>
    decreases names.len(),
{
    if names.len() == 0 {
        Seq::empty()
    } else if list_name_grammar(names.last()) {
        parseable_members(names.drop_last()).push(names.last())
    } else {
        parseable_members(names.drop_last())
    }
}

/// The text of each string.
pub open spec fn string_views(names: Seq<String>) -> Seq<Seq<char>> {
    names.map_values(|s: String| s@)
}

impl PublishedListCatalog {
    /// The redis key holding the catalog set: `{version}-feed-catalog`.
    pub fn key() -> (s: String)
        ensures
            s@ == SCHEMA_VERSION@ + "-feed-catalog"@,
    {
        let mut s = string_of(SCHEMA_VERSION);
        push_str(&mut s, "-feed-catalog");
        s
    }

    /// The members to write for `lists`: each list's name, in order.
    pub fn member_names(lists: &Vec<PublishedList>) -> (names: Vec<String>)
        ensures
            names.len() == lists.len(),
            forall|i: int| 0 <= i < lists.len() ==> #[trigger] names[i]@ == lists[i].spec_name(),
    {
        let mut names: Vec<String> = Vec::new();
        for i in 0..lists.len()
            invariant
                names.len() == i,
                forall|j: int| 0 <= j < i ==> #[trigger] names[j]@ == lists[j].spec_name(),
        {
            names.push(lists[i].name());
        }
        names
    }

    /// The lists named by catalog members, dropping any member that isn't a
    /// published-list name (so a stray or future-schema entry can't fail
    /// discovery).
    pub fn lists_from_members(names: &Vec<String>) -> (lists: Vec<PublishedList>)
        ensures
            lists.len() == parseable_members(string_views(names@)).len(),
            forall|i: int| #![trigger lists[i]] 0 <= i < lists.len() ==> lists[i].spec_name_parses_from(
                parseable_members(string_views(names@))[i],
            ),
    {
        let ghost views = string_views(names@);
        let mut lists: Vec<PublishedList> = Vec::new();
        for i in 0..names.len()
            invariant
                views == string_views(names@),
                lists.len() == parseable_members(views.subrange(0, i as int)).len(),
                forall|j: int| #![trigger lists[j]] 0 <= j < lists.len() ==> lists[j].spec_name_parses_from(
                    parseable_members(views.subrange(0, i as int))[j],
                ),
        {
            let ghost prev = views.subrange(0, i as int);
            assert(views.subrange(0, i + 1).drop_last() =~= prev);
            assert(views.subrange(0, i + 1).last() == names[i as int]@);
            match PublishedList::from_name(names[i].as_str()) {
                Ok(list) => {
                    lists.push(list);
                },
                Err(_) => {},
            }
        }
        assert(views.subrange(0, names.len() as int) =~= views);
        lists
    }
}

} // verus!
