//! Points in time: reading RFC 3339 timestamps, the present, and how far apart
//! two points are.
use vstd::prelude::*;

verus! {

/// The points in time that `chrono` represents: the first second of the year
/// -262143 up to the last of 262142, in seconds since 1970 with the nanoseconds
/// since that second. In the last second of a minute the nanoseconds run on past
/// a full second while a leap second lasts.
pub open spec fn in_range(secs: int, nanos: int) -> bool {
    &&& -8334601228800 <= secs <= 8210266876799
    &&& 0 <= nanos < 2_000_000_000
    &&& nanos >= 1_000_000_000 ==> secs % 60 == 59
}

/// The points in time that the machine's clock can show: those outside leap
/// seconds.
pub open spec fn on_clock(secs: int, nanos: int) -> bool {
    in_range(secs, nanos) && nanos < 1_000_000_000
}

/// A leap second that lies between two times of day, counted towards the later
/// one.
pub open spec fn leap_between(a: (int, int), b: (int, int)) -> int {
    if a.0 % 86400 > b.0 % 86400 && b.1 >= 1_000_000_000 {
        1
    } else if a.0 % 86400 < b.0 % 86400 && a.1 >= 1_000_000_000 {
        -1
    } else {
        0
    }
}

/// The nanoseconds from `b` to `a`, negative where `a` is earlier.
pub open spec fn nanos_from(a: (int, int), b: (int, int)) -> int {
    (a.0 - b.0 + leap_between(a, b)) * 1_000_000_000 + (a.1 - b.1)
}

/// The whole seconds from `b` to `a`, negative where `a` is earlier; a part of a
/// second is dropped.
pub open spec fn seconds_from(a: (int, int), b: (int, int)) -> int {
    let nanos = nanos_from(a, b);
    if nanos >= 0 {
        nanos / 1_000_000_000
    } else {
        -((-nanos) / 1_000_000_000)
    }
}

/// Whether `a` is no later than `b`.
pub open spec fn no_later(a: (int, int), b: (int, int)) -> bool {
    a.0 < b.0 || (a.0 == b.0 && a.1 <= b.1)
}

/// The point in time that `chrono::DateTime::parse_from_rfc3339` reads from a
/// text, in seconds and nanoseconds since 1970; nothing where it reports an error.
pub uninterp spec fn rfc3339(s: Seq<char>) -> Option<(i64, u32)>;

/// `chrono::DateTime::parse_from_rfc3339`, its result taken apart by `timestamp`
/// and `timestamp_subsec_nanos`. What it reads depends on the text alone and is a
/// point in time that `chrono` can represent.
#[verifier::external_body]
fn read_rfc3339(s: &str) -> (r: Option<(i64, u32)>)
    ensures
        r == rfc3339(s@),
        r matches Some(t) ==> in_range(t.0 as int, t.1 as int),
{
    match chrono::DateTime::parse_from_rfc3339(s) {
        Ok(t) => Some((t.timestamp(), t.timestamp_subsec_nanos())),
        Err(_) => None,
    }
}

/// `chrono::Utc::now`, taken apart by `timestamp` and `timestamp_subsec_nanos`:
/// some point in time that `chrono` can represent, never within a leap second.
/// Which one is up to the machine's clock, so nothing is said of that. `chrono`
/// panics while that clock stands before 1970, or past the years it represents.
#[verifier::external_body]
fn read_clock() -> (t: (i64, u32))
    ensures
        on_clock(t.0 as int, t.1 as int),
{
    let t = chrono::Utc::now();
    (t.timestamp(), t.timestamp_subsec_nanos())
}

/// The difference of two `chrono::DateTime<Utc>` values, each made by
/// `from_timestamp`, in whole seconds (`TimeDelta::num_seconds`) and the
/// nanoseconds that are left (`TimeDelta::subsec_nanos`): together the time between
/// them, a leap second between their times of day included.
#[verifier::external_body]
fn subtract(a: (i64, u32), b: (i64, u32)) -> (r: (i64, i32))
    requires
        in_range(a.0 as int, a.1 as int),
        in_range(b.0 as int, b.1 as int),
    ensures
        r.0 == seconds_from((a.0 as int, a.1 as int), (b.0 as int, b.1 as int)),
        r.0 * 1_000_000_000 + r.1 == nanos_from(
            (a.0 as int, a.1 as int),
            (b.0 as int, b.1 as int),
        ),
{
    let x = chrono::DateTime::from_timestamp(a.0, a.1).unwrap();
    let y = chrono::DateTime::from_timestamp(b.0, b.1).unwrap();
    let d = x - y;
    (d.num_seconds(), d.subsec_nanos())
}

/// A point in time.
#[derive(Debug, Clone, Copy)]
pub struct Instant {
    secs: i64,
    nanos: u32,
}

impl View for Instant {
    type V = (int, int);

    closed spec fn view(&self) -> (int, int) {
        (self.secs as int, self.nanos as int)
    }
}

impl Instant {
    #[verifier::type_invariant]
    spec fn representable(self) -> bool {
        in_range(self.secs as int, self.nanos as int)
    }

    /// The point in time `nanos` nanoseconds after the second `secs` since 1970.
    pub fn new(secs: i64, nanos: u32) -> (r: Option<Instant>)
        ensures
            r is Some <==> in_range(secs as int, nanos as int),
            r matches Some(t) ==> t@ == (secs as int, nanos as int),
    {
        if -8334601228800 <= secs && secs <= 8210266876799 && nanos < 2_000_000_000 && (nanos
            < 1_000_000_000 || ends_minute(secs)) {
            Some(Instant { secs, nanos })
        } else {
            None
        }
    }

    /// The present, by the machine's clock. Which point in time that is, no clause
    /// can say; the clock never shows one within a leap second.
    pub fn now() -> (t: Instant)
        ensures
            on_clock(t@.0, t@.1),
    {
        let (secs, nanos) = read_clock();
        Instant { secs, nanos }
    }

    /// The whole seconds from `earlier` to this point, negative where this one
    /// comes first.
    pub fn seconds_since(&self, earlier: &Instant) -> (r: i64)
        ensures
            r == seconds_from(self@, earlier@),
            -16544868105602 <= r <= 16544868105602,
    {
        proof {
            use_type_invariant(self);
            use_type_invariant(earlier);
        }
        subtract((self.secs, self.nanos), (earlier.secs, earlier.nanos)).0
    }

    /// The nanoseconds from `earlier` to this point, negative where this one comes
    /// first.
    pub fn nanos_since(&self, earlier: &Instant) -> (r: i128)
        ensures
            r == nanos_from(self@, earlier@),
            -16544868105602_000_000_000 < r < 16544868105602_000_000_000,
    {
        proof {
            use_type_invariant(self);
            use_type_invariant(earlier);
        }
        let (secs, nanos) = subtract((self.secs, self.nanos), (earlier.secs, earlier.nanos));
        secs as i128 * 1_000_000_000 + nanos as i128
    }

    /// Whether this point is no later than `other`.
    pub fn is_no_later_than(&self, other: &Instant) -> (r: bool)
        ensures
            r == no_later(self@, other@),
    {
        self.secs < other.secs || (self.secs == other.secs && self.nanos <= other.nanos)
    }
}

fn ends_minute(secs: i64) -> (r: bool)
    ensures
        r == (secs as int % 60 == 59),
{
    if secs >= 0 {
        secs % 60 == 59
    } else {
        (-(secs + 1)) % 60 == 0
    }
}

/// The point in time that a timestamp denotes.
pub open spec fn instant_of(s: Seq<char>) -> Option<(int, int)> {
    match rfc3339(s) {
        Some(t) => Some((t.0 as int, t.1 as int)),
        None => None,
    }
}

pub open spec fn instant_view(t: Option<Instant>) -> Option<(int, int)> {
    match t {
        Some(t) => Some(t@),
        None => None,
    }
}

/// Parse an RFC 3339 timestamp, or `None` when it does not parse.
pub fn parse_ts(s: &str) -> (r: Option<Instant>)
    ensures
        instant_view(r) == instant_of(s@),
{
    match read_rfc3339(s) {
        Some((secs, nanos)) => Some(Instant { secs, nanos }),
        None => None,
    }
}

}
