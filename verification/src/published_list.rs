//! Naming of the published redis lists and their companion keys.

use vstd::prelude::*;

use crate::limit::{lemma_limit_roundtrip, limit_grammar, unit_for, Limit};
use crate::order::{lemma_order_roundtrip, order_for, Order};
use crate::published::SCHEMA_VERSION;
use crate::spec::{parse_spec, spec_limit_part, spec_order_part, InvalidSpec};
use crate::text::{
    digits_value, index_of_first, lemma_index_of_first, push_str, str_eq, string_of,
};

verus! {

/// A published redis list, identified by its `{order}-{limit}` spec.
#[derive(Debug, Clone, Copy, PartialEq, Eq, Hash, Structural)]
pub struct PublishedList {
    order: Order,
    limit: Limit,
}

/// A key that is not the name of a published list; holds the key.
#[derive(Debug)]
pub struct InvalidListName(pub String);

/// The name prefix every list key carries: the schema version and a `-`.
pub open spec fn spec_prefix() -> Seq<char> {
    SCHEMA_VERSION@ + "-"@
}

/// The rest of `s` after the schema-version prefix.
pub open spec fn spec_unprefixed(s: Seq<char>) -> Seq<char> {
    s.subrange(3, s.len() as int)
}

/// Whether `s` names a published list: the schema-version prefix, then a
/// well-formed `{order}-{limit}` spec.
pub open spec fn list_name_grammar(s: Seq<char>) -> bool {
    &&& s.len() >= 3
    &&& s.subrange(0, 3) == spec_prefix()
    &&& index_of_first(spec_unprefixed(s), '-') is Some
    &&& order_for(spec_order_part(spec_unprefixed(s))) is Some
    &&& limit_grammar(spec_limit_part(spec_unprefixed(s)))
}

impl PublishedList {
    pub closed spec fn order_of(self) -> Order {
        self.order
    }

    pub closed spec fn limit_of(self) -> Limit {
        self.limit
    }

    /// The redis key: `{version}-{order}-{limit}`, e.g. `v3-recency-48h`.
    pub open spec fn spec_name(self) -> Seq<char> {
        spec_prefix() + self.order_of().spec_name() + "-"@ + self.limit_of().spec_render()
    }

    /// This list is the one `s` names (per [`PublishedList::from_name`]).
    pub open spec fn spec_name_parses_from(self, s: Seq<char>) -> bool {
        &&& list_name_grammar(s)
        &&& Some(self.order_of()) == order_for(spec_order_part(spec_unprefixed(s)))
        &&& self.limit_of().count_of() == digits_value(spec_limit_part(spec_unprefixed(s)).drop_last())
        &&& Some(self.limit_of().unit_of()) == unit_for(spec_limit_part(spec_unprefixed(s)).last())
    }

    pub fn new(order: Order, limit: Limit) -> (l: PublishedList)
        ensures
            l.order_of() == order,
            l.limit_of() == limit,
    {
        PublishedList { order, limit }
    }

    /// The `(order, limit)` spec of the list.
    pub fn spec(&self) -> (r: (Order, Limit))
        ensures
            r == (self.order_of(), self.limit_of()),
    {
        (self.order, self.limit)
    }

    /// The redis key for this list, e.g. `v3-recency-48h`.
    pub fn name(&self) -> (s: String)
        ensures
            s@ == self.spec_name(),
    {
        let mut s = string_of(SCHEMA_VERSION);
        push_str(&mut s, "-");
        push_str(&mut s, self.order.as_str());
        push_str(&mut s, "-");
        let limit = self.limit.to_string();
        push_str(&mut s, limit.as_str());
        proof {
            assert(s@ =~= self.spec_name());
        }
        s
    }

    /// The scratch key the next list is built in before being swapped into
    /// place. Never read by consumers.
    pub fn building_key(&self) -> (s: String)
        ensures
            s@ == self.spec_name() + ":building"@,
    {
        let mut s = self.name();
        push_str(&mut s, ":building");
        s
    }

    /// The companion key holding when the list was last published.
    pub fn refreshed_at_key(&self) -> (s: String)
        ensures
            s@ == self.spec_name() + ":refreshed-at"@,
    {
        let mut s = self.name();
        push_str(&mut s, ":refreshed-at");
        s
    }

    /// The companion key holding the list's statistics.
    pub fn statistics_key(&self) -> (s: String)
        ensures
            s@ == self.spec_name() + ":statistics"@,
    {
        let mut s = self.name();
        push_str(&mut s, ":statistics");
        s
    }

    /// The list a key names, the inverse of [`PublishedList::name`].
    pub fn from_name(s: &str) -> (r: Result<PublishedList, InvalidListName>)
        ensures
            r is Ok <==> list_name_grammar(s@),
            r matches Ok(l) ==> Some(l.order_of()) == order_for(
                spec_order_part(spec_unprefixed(s@)),
            ) && l.limit_of().count_of() == digits_value(
                spec_limit_part(spec_unprefixed(s@)).drop_last(),
            ) && Some(l.limit_of().unit_of()) == unit_for(
                spec_limit_part(spec_unprefixed(s@)).last(),
            ),
            r matches Err(e) ==> e.0@ == s@,
    {
        proof {
            reveal_strlit("v3");
            reveal_strlit("-");
            reveal_strlit("v3-");
            assert(spec_prefix() =~= "v3-"@);
        }
        let n = s.unicode_len();
        if n < 3 {
            return Err(InvalidListName(string_of(s)));
        }
        let head = s.substring_char(0, 3);
        if !str_eq(head, "v3-") {
            return Err(InvalidListName(string_of(s)));
        }
        let rest = s.substring_char(3, n);
        match parse_spec(rest) {
            Ok((order, limit)) => Ok(PublishedList { order, limit }),
            Err(_) => Err(InvalidListName(string_of(s))),
        }
    }
}

/// A list's name parses back to the list (for a non-zero window count).
pub proof fn lemma_name_roundtrip(l: PublishedList)
    requires
        l.limit_of().count_of() > 0,
    ensures
        list_name_grammar(l.spec_name()),
        Some(l.order_of()) == order_for(spec_order_part(spec_unprefixed(l.spec_name()))),
        l.limit_of().count_of() == digits_value(
            spec_limit_part(spec_unprefixed(l.spec_name())).drop_last(),
        ),
        Some(l.limit_of().unit_of()) == unit_for(
            spec_limit_part(spec_unprefixed(l.spec_name())).last(),
        ),
{
    reveal_strlit("v3");
    reveal_strlit("-");
    let o = l.order_of().spec_name();
    let r = l.limit_of().spec_render();
    let name = l.spec_name();
    lemma_order_roundtrip(l.order_of());
    lemma_limit_roundtrip(l.limit_of());
    assert(spec_prefix().len() == 3);
    assert(name.subrange(0, 3) =~= spec_prefix());
    let rest = spec_unprefixed(name);
    assert(rest =~= o + "-"@ + r);
    assert(rest[o.len() as int] == '-');
    assert forall|j: int| 0 <= j < o.len() implies rest[j] != '-' by {
        assert(rest[j] == o[j]);
    }
    lemma_index_of_first(rest, '-', o.len() as int);
    assert(spec_order_part(rest) =~= o);
    assert(spec_limit_part(rest) =~= r);
}

} // verus!
