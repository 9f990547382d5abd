//! The recency window of a published list: `<count><unit>`, e.g. `48h`, `7d`,
//! `4w`, `1y`. The unit is kept as written, so `48h` renders as `48h` and never
//! as `2d`: the rendered form is a redis list name and must be stable.

use vstd::prelude::*;

use crate::text::{
    all_digits, decimal, digit_of, digits_value, is_digit, lemma_decimal_roundtrip,
    lemma_digits_value_prefix, push_char, push_decimal,
};

verus! {

/// The largest window, in seconds, a `chrono::TimeDelta` can hold
/// (`i64::MAX` milliseconds, whole seconds).
pub const MAX_WINDOW_SECS: u64 = 9_223_372_036_854_775;

/// The unit of a [`Limit`].
#[derive(Debug, Clone, Copy, PartialEq, Eq, Hash, Structural)]
pub enum Unit {
    Hours,
    Days,
    Weeks,
    Years,
}

/// A character that names no unit.
#[derive(Debug, Clone, Copy, PartialEq, Eq, Structural)]
pub struct UnknownUnit(pub char);

impl Unit {
    /// The suffix the unit is written with.
    pub open spec fn spec_suffix(self) -> char {
        match self {
            Unit::Hours => 'h',
            Unit::Days => 'd',
            Unit::Weeks => 'w',
            Unit::Years => 'y',
        }
    }

    /// Seconds in one unit (a year counts 365 days).
    pub open spec fn seconds_per(self) -> nat {
        match self {
            Unit::Hours => 3600,
            Unit::Days => 86400,
            Unit::Weeks => 604800,
            Unit::Years => 31536000,
        }
    }

    pub fn suffix(self) -> (c: char)
        ensures
            c == self.spec_suffix(),
    {
        match self {
            Unit::Hours => 'h',
            Unit::Days => 'd',
            Unit::Weeks => 'w',
            Unit::Years => 'y',
        }
    }

    fn seconds(self) -> (s: u64)
        ensures
            s == self.seconds_per(),
    {
        match self {
            Unit::Hours => 3600,
            Unit::Days => 86400,
            Unit::Weeks => 604800,
            Unit::Years => 31536000,
        }
    }

    /// The unit a suffix character names, or the character back as an error.
    pub fn from_suffix(c: char) -> (r: Result<Unit, UnknownUnit>)
        ensures
            r is Ok <==> unit_for(c) is Some,
            r matches Ok(u) ==> unit_for(c) == Some(u),
            r matches Err(e) ==> e.0 == c,
    {
        match c {
            'h' => Ok(Unit::Hours),
            'd' => Ok(Unit::Days),
            'w' => Ok(Unit::Weeks),
            'y' => Ok(Unit::Years),
            other => Err(UnknownUnit(other)),
        }
    }
}

/// The unit a suffix character names.
pub open spec fn unit_for(c: char) -> Option<Unit> {
    if c == 'h' {
        Some(Unit::Hours)
    } else if c == 'd' {
        Some(Unit::Days)
    } else if c == 'w' {
        Some(Unit::Weeks)
    } else if c == 'y' {
        Some(Unit::Years)
    } else {
        None
    }
}

/// Whether `s` is a well-formed limit: a non-empty run of ASCII digits
/// denoting a count in `1..=u64::MAX`, followed by exactly one unit suffix.
pub open spec fn limit_grammar(s: Seq<char>) -> bool {
    &&& s.len() >= 2
    &&& all_digits(s.drop_last())
    &&& unit_for(s.last()) is Some
    &&& digits_value(s.drop_last()) > 0
    &&& digits_value(s.drop_last()) <= u64::MAX
}

/// A recency window: a count of hours, days, weeks or years.
#[derive(Debug, Clone, Copy, PartialEq, Eq, Hash, Structural)]
pub struct Limit {
    count: u64,
    unit: Unit,
}

/// A string that is not a well-formed limit; holds the rejected input.
#[derive(Debug)]
pub struct InvalidLimit(pub String);

impl Limit {
    /// The count of units.
    pub closed spec fn count_of(self) -> u64 {
        self.count
    }

    /// The unit.
    pub closed spec fn unit_of(self) -> Unit {
        self.unit
    }

    /// The rendered name: the count in decimal, then the unit suffix.
    pub open spec fn spec_render(self) -> Seq<char> {
        decimal(self.count_of() as nat).push(self.unit_of().spec_suffix())
    }

    /// The window's length in seconds.
    pub open spec fn window_secs(self) -> nat {
        self.count_of() as nat * self.unit_of().seconds_per()
    }

    /// Two limits are equal exactly when count and unit are.
    pub proof fn lemma_eq_fields(a: Limit, b: Limit)
        ensures
            (a == b) <==> (a.count_of() == b.count_of() && a.unit_of() == b.unit_of()),
    {
    }

    pub fn hours(count: u64) -> (l: Limit)
        ensures
            l.count_of() == count,
            l.unit_of() == Unit::Hours,
    {
        Limit { count, unit: Unit::Hours }
    }

    pub fn days(count: u64) -> (l: Limit)
        ensures
            l.count_of() == count,
            l.unit_of() == Unit::Days,
    {
        Limit { count, unit: Unit::Days }
    }

    pub fn weeks(count: u64) -> (l: Limit)
        ensures
            l.count_of() == count,
            l.unit_of() == Unit::Weeks,
    {
        Limit { count, unit: Unit::Weeks }
    }

    pub fn years(count: u64) -> (l: Limit)
        ensures
            l.count_of() == count,
            l.unit_of() == Unit::Years,
    {
        Limit { count, unit: Unit::Years }
    }

    pub fn count(&self) -> (c: u64)
        ensures
            c == self.count_of(),
    {
        self.count
    }

    pub fn unit(&self) -> (u: Unit)
        ensures
            u == self.unit_of(),
    {
        self.unit
    }

    /// Parse untrusted input (e.g. a `--publish` argument).
    pub fn parse(s: &str) -> (r: Result<Limit, InvalidLimit>)
        ensures
            r is Ok <==> limit_grammar(s@),
            r matches Ok(l) ==> l.count_of() == digits_value(s@.drop_last())
                && Some(l.unit_of()) == unit_for(s@.last()),
            r matches Err(e) ==> e.0@ == s@,
    {
        let n = s.unicode_len();
        if n < 2 {
            return Err(InvalidLimit(String::from_str(s)));
        }
        let unit = match Unit::from_suffix(s.get_char(n - 1)) {
            Ok(u) => u,
            Err(_) => {
                return Err(InvalidLimit(String::from_str(s)));
            },
        };
        let ghost digits = s@.drop_last();
        let mut value: u64 = 0;
        let mut i: usize = 0;
        while i < n - 1
            invariant
                n == s@.len(),
                n >= 2,
                digits == s@.drop_last(),
                i <= n - 1,
                all_digits(digits.subrange(0, i as int)),
                value == digits_value(digits.subrange(0, i as int)),
            decreases n - 1 - i,
        {
            let c = s.get_char(i);
            let d = match digit_of(c) {
                Some(d) => d,
                None => {
                    assert(!all_digits(digits)) by {
                        assert(!is_digit(digits[i as int]));
                    }
                    return Err(InvalidLimit(String::from_str(s)));
                },
            };
            let ghost next = digits.subrange(0, i + 1);
            assert(next.drop_last() =~= digits.subrange(0, i as int));
            if value > (u64::MAX - d) / 10 {
                proof {
                    assert(value * 10 + d > u64::MAX) by (nonlinear_arith)
                        requires
                            value > (u64::MAX - d) / 10,
                            d < 10,
                    ;
                    lemma_digits_value_prefix(digits, i + 1);
                }
                return Err(InvalidLimit(String::from_str(s)));
            }
            proof {
                assert(value * 10 + d <= u64::MAX) by (nonlinear_arith)
                    requires
                        value <= (u64::MAX - d) / 10,
                        d < 10,
                ;
            }
            value = value * 10 + d;
            i = i + 1;
            assert forall|j: int| 0 <= j < i implies #[trigger] is_digit(digits.subrange(0, i as int)[j]) by {
                if j < i - 1 {
                    assert(digits.subrange(0, i as int)[j] == digits.subrange(0, i - 1)[j]);
                }
            }
        }
        assert(digits.subrange(0, i as int) =~= digits);
        if value == 0 {
            return Err(InvalidLimit(String::from_str(s)));
        }
        Ok(Limit { count: value, unit })
    }

    /// Validating constructor for untrusted input; the same as [`Limit::parse`].
    pub fn new(s: &str) -> (r: Result<Limit, InvalidLimit>)
        ensures
            r is Ok <==> limit_grammar(s@),
            r matches Ok(l) ==> l.count_of() == digits_value(s@.drop_last())
                && Some(l.unit_of()) == unit_for(s@.last()),
            r matches Err(e) ==> e.0@ == s@,
    {
        Limit::parse(s)
    }

    /// The rendered name, e.g. `48h`.
    pub fn to_string(&self) -> (r: String)
        ensures
            r@ == self.spec_render(),
    {
        let mut s = String::new();
        push_decimal(&mut s, self.count);
        push_char(&mut s, self.unit.suffix());
        assert(s@ =~= self.spec_render());
        s
    }

    /// The window's length in seconds.
    pub fn window_seconds(&self) -> (w: u64)
        requires
            self.window_secs() <= u64::MAX,
        ensures
            w == self.window_secs(),
    {
        self.count * self.unit.seconds()
    }

    /// Whether the window fits a `chrono::TimeDelta`.
    pub fn window_fits(&self) -> (b: bool)
        ensures
            b == (self.window_secs() <= MAX_WINDOW_SECS),
    {
        let per = self.unit.seconds();
        let c = self.count;
        proof {
            let m = MAX_WINDOW_SECS as int;
            assert((c <= m / (per as int)) <==> (c * per <= m)) by (nonlinear_arith)
                requires
                    per > 0,
                    c >= 0,
                    m >= 0,
            ;
        }
        c <= MAX_WINDOW_SECS / per
    }

    /// The window as a `chrono::TimeDelta`, for filtering by age: the delta
    /// of the window's whole seconds, so limits with equal windows (`48h`,
    /// `2d`) give equal deltas.
    pub fn window(&self) -> (d: chrono::TimeDelta)
        requires
            self.window_secs() <= MAX_WINDOW_SECS,
        ensures
            d == seconds_delta(self.window_secs() as i64),
    {
        let secs = self.window_seconds();
        delta_seconds(secs as i64)
    }
}

#[verifier::external_type_specification]
#[verifier::external_body]
pub struct ExTimeDelta(chrono::TimeDelta);

/// The `chrono::TimeDelta` that `chrono::TimeDelta::seconds` makes of a number
/// of seconds.
pub uninterp spec fn seconds_delta(secs: i64) -> chrono::TimeDelta;

/// `chrono::TimeDelta::seconds`, which makes a delta of the given number of
/// seconds (no sub-second part) and panics outside `±i64::MAX / 1000`
/// seconds; the bound is required here. The contract names the delta it
/// returns as a function of `secs` alone.
#[verifier::external_body]
fn delta_seconds(secs: i64) -> (d: chrono::TimeDelta)
    requires
        -(MAX_WINDOW_SECS as int) <= secs <= MAX_WINDOW_SECS,
    ensures
        d == seconds_delta(secs),
{
    chrono::TimeDelta::seconds(secs)
}

/// Limits with equal windows give equal deltas, whatever unit they are
/// written in (`48h` and `2d`, `1w` and `7d`).
pub proof fn lemma_equal_windows_equal_deltas(a: Limit, b: Limit)
    requires
        a.window_secs() == b.window_secs(),
    ensures
        seconds_delta(a.window_secs() as i64) == seconds_delta(b.window_secs() as i64),
{
}

/// Rendering then parsing a limit with a non-zero count gives it back.
pub proof fn lemma_limit_roundtrip(l: Limit)
    requires
        l.count_of() > 0,
    ensures
        limit_grammar(l.spec_render()),
        digits_value(l.spec_render().drop_last()) == l.count_of(),
        unit_for(l.spec_render().last()) == Some(l.unit_of()),
{
    lemma_decimal_roundtrip(l.count_of() as nat);
    assert(l.spec_render().drop_last() =~= decimal(l.count_of() as nat));
}

/// Distinct limits render to distinct names: the unit is never normalised
/// away (`48h` and `2d` have equal windows but different names).
pub proof fn lemma_render_injective(a: Limit, b: Limit)
    requires
        a.spec_render() == b.spec_render(),
    ensures
        a == b,
{
    lemma_decimal_roundtrip(a.count_of() as nat);
    lemma_decimal_roundtrip(b.count_of() as nat);
    assert(a.spec_render().drop_last() =~= decimal(a.count_of() as nat));
    assert(b.spec_render().drop_last() =~= decimal(b.count_of() as nat));
    assert(a.unit_of().spec_suffix() == a.spec_render().last());
    Limit::lemma_eq_fields(a, b);
}

impl core::str::FromStr for Limit {
    type Err = InvalidLimit;

    fn from_str(s: &str) -> (r: Result<Limit, InvalidLimit>)
        ensures
            r is Ok <==> limit_grammar(s@),
            r matches Ok(l) ==> l.count_of() == digits_value(s@.drop_last())
                && Some(l.unit_of()) == unit_for(s@.last()),
            r matches Err(e) ==> e.0@ == s@,
    {
        Limit::parse(s)
    }
}

} // verus!

