//! Published-list specs: `<order>-<limit>`, e.g. `quality-48h`.

use vstd::prelude::*;

use crate::limit::{limit_grammar, unit_for, InvalidLimit, Limit};
use crate::order::{order_for, InvalidOrder, Order};
use crate::text::{digits_value, first_index_of, index_of_first, lemma_index_of_first_found, string_of};

verus! {

/// Error parsing a published-list spec.
#[derive(Debug)]
pub enum InvalidSpec {
    /// No `-` separates an order from a limit; holds the input.
    Malformed(String),
    Order(InvalidOrder),
    Limit(InvalidLimit),
}

/// The order part of a spec: everything before the first `-`.
pub open spec fn spec_order_part(s: Seq<char>) -> Seq<char> {
    s.subrange(0, index_of_first(s, '-').unwrap())
}

/// The limit part of a spec: everything after the first `-`.
pub open spec fn spec_limit_part(s: Seq<char>) -> Seq<char> {
    s.subrange(index_of_first(s, '-').unwrap() + 1, s.len() as int)
}

/// Parse a published-list spec `<order>-<limit>` into its `(Order, Limit)`.
///
/// Splits at the first `-`; order names never contain `-`, so the split is
/// unambiguous. The inverse of the `{order}-{limit}` list naming.
pub fn parse_spec(s: &str) -> (r: Result<(Order, Limit), InvalidSpec>)
    ensures
        index_of_first(s@, '-') is None ==> (r matches Err(InvalidSpec::Malformed(m)) && m@ == s@),
        index_of_first(s@, '-') is Some && order_for(spec_order_part(s@)) is None ==> (r matches Err(
            InvalidSpec::Order(e),
        ) && e.0@ == spec_order_part(s@)),
        index_of_first(s@, '-') is Some && order_for(spec_order_part(s@)) is Some && !limit_grammar(
            spec_limit_part(s@),
        ) ==> (r matches Err(InvalidSpec::Limit(e)) && e.0@ == spec_limit_part(s@)),
        index_of_first(s@, '-') is Some && order_for(spec_order_part(s@)) is Some && limit_grammar(
            spec_limit_part(s@),
        ) ==> (r matches Ok((ro, rl)) && Some(ro) == order_for(spec_order_part(s@))
            && rl.count_of() == digits_value(spec_limit_part(s@).drop_last()) && Some(rl.unit_of())
            == unit_for(spec_limit_part(s@).last())),
{
    proof {
        lemma_index_of_first_found(s@, '-');
    }
    let k = match first_index_of(s, '-') {
        Some(k) => k,
        None => {
            return Err(InvalidSpec::Malformed(string_of(s)));
        },
    };
    let n = s.unicode_len();
    let order_part = s.substring_char(0, k);
    let limit_part = s.substring_char(k + 1, n);
    let order = match Order::parse(order_part) {
        Ok(o) => o,
        Err(e) => {
            return Err(InvalidSpec::Order(e));
        },
    };
    let limit = match Limit::parse(limit_part) {
        Ok(l) => l,
        Err(e) => {
            return Err(InvalidSpec::Limit(e));
        },
    };
    Ok((order, limit))
}

} // verus!
