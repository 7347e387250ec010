use chrono::DateTime;
use vstd::prelude::*;

verus! {

/// A point in time: whole seconds since 1970-01-01 00:00:00 UTC and the
/// nanoseconds past that second (at or above 1_000_000_000 only inside a
/// leap second, as chrono counts them).
#[derive(Clone, Copy, Debug, PartialEq, Eq, Structural)]
pub struct Stamp {
    pub secs: i64,
    pub nanos: u32,
}

/// A signed length of time, split as chrono splits it: `seconds` is the
/// whole number of seconds (rounded toward zero) and `subsec_nanos` the
/// rest, with the same sign.
#[derive(Clone, Copy, Debug, PartialEq, Eq, Structural)]
pub struct Span {
    pub seconds: i64,
    pub subsec_nanos: i32,
}

impl View for Span {
    type V = int;

    /// The length in nanoseconds.
    open spec fn view(&self) -> int {
        self.seconds * 1_000_000_000 + self.subsec_nanos
    }
}

/// The first second that chrono can represent: 262144 BCE, January 1,
/// 00:00:00 UTC.
pub open spec fn chrono_min_secs() -> int {
    -8_334_601_228_800
}

/// The last second that chrono can represent: 262142 CE, December 31,
/// 23:59:59 UTC.
pub open spec fn chrono_max_secs() -> int {
    8_210_266_876_799
}

/// A stamp that chrono's `DateTime::from_timestamp` accepts: inside its
/// years, and nanoseconds past 999_999_999 only in a leap second (below
/// 2_000_000_000, at a second that ends a minute).
pub open spec fn representable_stamp(s: Stamp) -> bool {
    &&& chrono_min_secs() <= s.secs <= chrono_max_secs()
    &&& s.nanos < 1_000_000_000 || (s.nanos < 2_000_000_000 && (s.secs as int) % 60 == 59)
}

/// A representable stamp that is not inside a leap second.
pub open spec fn ordinary_stamp(s: Stamp) -> bool {
    &&& s.nanos < 1_000_000_000
    &&& chrono_min_secs() <= s.secs <= chrono_max_secs()
}

/// The nanoseconds from `earlier` to `later`, leap seconds aside.
pub open spec fn nanos_between(later: Stamp, earlier: Stamp) -> int {
    (later.secs - earlier.secs) * 1_000_000_000 + later.nanos - earlier.nanos
}

/// What chrono's `DateTime::<Utc>::signed_duration_since` gives for two
/// instants, each rebuilt with `DateTime::from_timestamp`: the whole seconds
/// and the sub-second nanoseconds of the result, or `None` when an instant
/// cannot be rebuilt.
pub uninterp spec fn chrono_elapsed(
    later_secs: i64,
    later_nanos: u32,
    earlier_secs: i64,
    earlier_nanos: u32,
) -> Option<(i64, i32)>;

/// Whole seconds in `total` nanoseconds, rounded toward zero.
pub open spec fn truncated_seconds(total: int) -> int {
    if total >= 0 {
        total / 1_000_000_000
    } else {
        -((-total) / 1_000_000_000)
    }
}

/// A split into whole seconds and the rest as chrono makes it: the rest is
/// under a second and has the sign of the whole.
pub open spec fn chrono_split(seconds: int, nanos: int) -> bool {
    &&& -1_000_000_000 < nanos < 1_000_000_000
    &&& seconds > 0 ==> nanos >= 0
    &&& seconds < 0 ==> nanos <= 0
}

/// Calls chrono's `DateTime::from_timestamp` for both stamps and then
/// `signed_duration_since`, and splits the `TimeDelta` with `num_seconds`
/// and `subsec_nanos`.  Trusted: the result is the name `chrono_elapsed` of
/// the arguments; it is `Some` exactly when `from_timestamp` rebuilds both
/// stamps (the difference of two such instants always fits a `TimeDelta`);
/// chrono's `TimeDelta` keeps `0 <= nanos < 1e9`, so the two parts split as
/// `chrono_split` says; for stamps outside leap seconds the difference is
/// exact.  How chrono counts across a leap second is left unsaid.
#[verifier::external_body]
fn chrono_signed_duration(later: Stamp, earlier: Stamp) -> (r: Option<(i64, i32)>)
    ensures
        r == chrono_elapsed(later.secs, later.nanos, earlier.secs, earlier.nanos),
        r matches Some((seconds, nanos)) ==> chrono_split(seconds as int, nanos as int),
        r is Some ==> representable_stamp(later) && representable_stamp(earlier),
        representable_stamp(later) && representable_stamp(earlier) ==> r is Some,
        ordinary_stamp(later) && ordinary_stamp(earlier) ==> match r {
            Some((seconds, nanos)) => seconds * 1_000_000_000 + nanos == nanos_between(later, earlier),
            None => false,
        },
{
    match (
        DateTime::from_timestamp(later.secs, later.nanos),
        DateTime::from_timestamp(earlier.secs, earlier.nanos),
    ) {
        (Some(a), Some(b)) => {
            let d = a.signed_duration_since(b);
            Some((d.num_seconds(), d.subsec_nanos()))
        },
        _ => None,
    }
}

/// The span that chrono reports from `earlier` to `later`.
pub open spec fn elapsed_spec(later: Stamp, earlier: Stamp) -> Option<Span> {
    match chrono_elapsed(later.secs, later.nanos, earlier.secs, earlier.nanos) {
        Some(parts) => Some(Span { seconds: parts.0, subsec_nanos: parts.1 }),
        None => None,
    }
}

/// The time from `earlier` to `later`.
pub fn elapsed(later: Stamp, earlier: Stamp) -> (r: Option<Span>)
    ensures
        r == elapsed_spec(later, earlier),
        r is Some <==> representable_stamp(later) && representable_stamp(earlier),
        r matches Some(span) ==> span.seconds == truncated_seconds(span@) && -1_000_000_000
            < span.subsec_nanos < 1_000_000_000,
        ordinary_stamp(later) && ordinary_stamp(earlier) ==> r is Some && r->0@ == nanos_between(
            later,
            earlier,
        ) && r->0.seconds == truncated_seconds(nanos_between(later, earlier)),
{
    match chrono_signed_duration(later, earlier) {
        Some((seconds, subsec_nanos)) => {
            proof {
                lemma_split_truncates(seconds as int, subsec_nanos as int);
            }
            Some(Span { seconds, subsec_nanos })
        },
        None => None,
    }
}

/// A chrono split holds the whole seconds of its total, rounded toward zero.
pub proof fn lemma_split_truncates(seconds: int, nanos: int)
    requires
        chrono_split(seconds, nanos),
    ensures
        seconds == truncated_seconds(seconds * 1_000_000_000 + nanos),
{
    let total = seconds * 1_000_000_000 + nanos;
    if total >= 0 {
        assert(seconds >= 0);
        assert(0 <= nanos);
        assert(total / 1_000_000_000 == seconds);
    } else {
        assert(seconds <= 0);
        assert(nanos <= 0);
        assert((-total) == (-seconds) * 1_000_000_000 + (-nanos));
        assert((-total) / 1_000_000_000 == -seconds);
    }
}

impl Span {
    /// The empty span.
    pub fn zero() -> (s: Span)
        ensures
            s.seconds == 0,
            s.subsec_nanos == 0,
            s@ == 0,
    {
        Span { seconds: 0, subsec_nanos: 0 }
    }

    /// The whole seconds of the span, rounded toward zero.
    pub fn num_seconds(&self) -> (n: i64)
        ensures
            n == self.seconds,
    {
        self.seconds
    }

    /// The length in nanoseconds, by which spans are ordered.
    pub fn total_nanos(&self) -> (n: i128)
        ensures
            n == self@,
    {
        self.seconds as i128 * 1_000_000_000i128 + self.subsec_nanos as i128
    }
}

} // verus!
