//! The ordering of a published list — the first component of its
//! `{order}-{limit}` name.

use vstd::prelude::*;

use crate::text::{str_eq, string_of};

verus! {

/// How a published list is ordered.
#[derive(Debug, Clone, Copy, PartialEq, Eq, Hash, Structural)]
pub enum Order {
    /// Best band first, then higher normalised score.
    Quality,
    /// Newest first.
    Recency,
    /// Best band first, newest within a band.
    QualityRecency,
}

/// A string that names no order; holds the rejected input.
#[derive(Debug)]
pub struct InvalidOrder(pub String);

impl Order {
    /// The name the order is written with.
    pub open spec fn spec_name(self) -> Seq<char> {
        match self {
            Order::Quality => "quality"@,
            Order::Recency => "recency"@,
            Order::QualityRecency => "quality,recency"@,
        }
    }

    pub fn as_str(&self) -> (s: &'static str)
        ensures
            s@ == self.spec_name(),
    {
        match self {
            Order::Quality => "quality",
            Order::Recency => "recency",
            Order::QualityRecency => "quality,recency",
        }
    }

    /// Parse an order name.
    pub fn parse(s: &str) -> (r: Result<Order, InvalidOrder>)
        ensures
            r is Ok <==> order_for(s@) is Some,
            r matches Ok(o) ==> order_for(s@) == Some(o),
            r matches Err(e) ==> e.0@ == s@,
    {
        if str_eq(s, "quality") {
            Ok(Order::Quality)
        } else if str_eq(s, "recency") {
            Ok(Order::Recency)
        } else if str_eq(s, "quality,recency") {
            Ok(Order::QualityRecency)
        } else {
            Err(InvalidOrder(string_of(s)))
        }
    }
}

/// The order a name denotes.
pub open spec fn order_for(s: Seq<char>) -> Option<Order> {
    if s == "quality"@ {
        Some(Order::Quality)
    } else if s == "recency"@ {
        Some(Order::Recency)
    } else if s == "quality,recency"@ {
        Some(Order::QualityRecency)
    } else {
        None
    }
}

/// Each order's name parses back to it, and contains no `-`, so an
/// `{order}-{limit}` name splits unambiguously at its first `-`.
pub proof fn lemma_order_roundtrip(o: Order)
    ensures
        order_for(o.spec_name()) == Some(o),
        forall|i: int| 0 <= i < o.spec_name().len() ==> o.spec_name()[i] != '-',
{
    reveal_strlit("quality");
    reveal_strlit("recency");
    reveal_strlit("quality,recency");
    assert("quality"@.len() == 7);
    assert("quality,recency"@.len() == 15);
    assert("quality"@[0] != "recency"@[0]);
    assert("quality"@ != "quality,recency"@);
    assert("recency"@ != "quality,recency"@);
}

impl core::str::FromStr for Order {
    type Err = InvalidOrder;

    fn from_str(s: &str) -> (r: Result<Order, InvalidOrder>)
        ensures
            r is Ok <==> order_for(s@) is Some,
            r matches Ok(o) ==> order_for(s@) == Some(o),
            r matches Err(e) ==> e.0@ == s@,
    {
        Order::parse(s)
    }
}

} // verus!

