//! Points in time.

use vstd::prelude::*;

verus! {

/// A point in time: seconds since the beginning of 1970, and nanoseconds.
#[derive(Debug)]
pub struct Instant {
    secs: i64,
    nanos: u32,
}

impl Instant {
    #[verifier::type_invariant]
    spec fn in_range(self) -> bool {
        self.nanos < 1_000_000_000
    }

    /// The whole seconds.
    pub closed spec fn seconds(self) -> int {
        self.secs as int
    }

    /// The nanoseconds beyond the whole seconds.
    pub closed spec fn nanoseconds(self) -> int {
        self.nanos as int
    }

    /// The point in time with these seconds and nanoseconds, unless the
    /// nanoseconds make up a second.
    pub fn new(secs: i64, nanos: u32) -> (r: Option<Instant>)
        ensures
            r is Some <==> nanos < 1_000_000_000,
            r matches Some(t) ==> t.seconds() == secs && t.nanoseconds() == nanos,
    {
        if nanos < 1_000_000_000 {
            Some(Instant { secs, nanos })
        } else {
            None
        }
    }

    /// The date and time, as AWS writes it; empty where it cannot be written.
    pub fn show(&self) -> (r: String)
        ensures
            r@ == time_text(self.seconds(), self.nanoseconds()),
    {
        proof {
            use_type_invariant(self);
        }
        format_time(self.secs, self.nanos)
    }

    /// Whether this point in time is before another one.
    pub fn is_before(&self, other: &Instant) -> (r: bool)
        ensures
            r == earlier(*self, *other),
    {
        self.secs < other.secs || (self.secs == other.secs && self.nanos < other.nanos)
    }
}

/// Whether a point in time is before another one.
pub open spec fn earlier(a: Instant, b: Instant) -> bool {
    a.seconds() < b.seconds() || (a.seconds() == b.seconds() && a.nanoseconds() < b.nanoseconds())
}

/// Whether a point in time is before another one, where having none comes before
/// all of them.
pub open spec fn earlier_or_none(a: Option<Instant>, b: Option<Instant>) -> bool {
    match (a, b) {
        (None, Some(_)) => true,
        (Some(a), Some(b)) => earlier(a, b),
        _ => false,
    }
}

/// Whether a point in time is before another one, where having none comes before
/// all of them.
pub fn is_before_opt(a: &Option<Instant>, b: &Option<Instant>) -> (r: bool)
    ensures
        r == earlier_or_none(*a, *b),
{
    match (a, b) {
        (None, Some(_)) => true,
        (Some(a), Some(b)) => a.is_before(b),
        _ => false,
    }
}

/// The date and time of a point in time, as AWS writes it.
pub uninterp spec fn time_text(secs: int, nanos: int) -> Seq<char>;

/// `aws_sdk_ecs::primitives::DateTime::fmt` writes a point in time as a date and
/// time, or fails for one too far away, which gives an empty text here. The text
/// is a function of the seconds and nanoseconds, which [`time_text`] names; how
/// it is laid out is not stated. `DateTime::from_secs_and_nanos` panics where the
/// nanoseconds make up a second.
#[verifier::external_body]
fn format_time(secs: i64, nanos: u32) -> (r: String)
    requires
        nanos < 1_000_000_000,
    ensures
        r@ == time_text(secs as int, nanos as int),
{
    aws_sdk_ecs::primitives::DateTime::from_secs_and_nanos(secs, nanos).fmt(
        aws_sdk_ecs::primitives::DateTimeFormat::DateTime,
    ).unwrap_or_default()
}

/// Of two points in time one is before the other exactly if it is earlier by whole seconds,
/// or by nanoseconds within the same second; having no time comes before having one.
pub proof fn lemma_before(a: Instant, b: Instant)
    ensures
        earlier_or_none(Some(a), Some(b)) <==> a.seconds() < b.seconds() || (a.seconds()
            == b.seconds() && a.nanoseconds() < b.nanoseconds()),
        earlier_or_none(None, Some(b)),
        !earlier_or_none(Some(a), None),
        !earlier_or_none(None, None),
{
}

} // verus!
