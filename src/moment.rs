//! Instants as read on a wall clock that runs at a fixed offset from UTC.

use chrono::{Datelike, Timelike};
use vstd::arithmetic::div_mod::{lemma_fundamental_div_mod, lemma_fundamental_div_mod_converse};
use vstd::prelude::*;

verus! {

/// The earliest day number a moment may carry.
pub const MIN_DAY: i64 = -2147483648;

/// The latest day number a moment may carry.
pub const MAX_DAY: i64 = 2147483647;

/// Number of seconds in a calendar day.
pub const DAY_SECONDS: u32 = 86400;

/// A day of the week.
#[derive(Clone, Copy, Debug, PartialEq, Eq, Structural)]
pub enum Weekday {
    Monday,
    Tuesday,
    Wednesday,
    Thursday,
    Friday,
    Saturday,
    Sunday,
}

impl Weekday {
    /// Position in the week, Monday being 0.
    pub open spec fn index(self) -> int {
        match self {
            Weekday::Monday => 0,
            Weekday::Tuesday => 1,
            Weekday::Wednesday => 2,
            Weekday::Thursday => 3,
            Weekday::Friday => 4,
            Weekday::Saturday => 5,
            Weekday::Sunday => 6,
        }
    }

    /// The weekday at position `i` of the week (Monday being 0).
    pub open spec fn at_index(i: int) -> Weekday {
        if i == 0 {
            Weekday::Monday
        } else if i == 1 {
            Weekday::Tuesday
        } else if i == 2 {
            Weekday::Wednesday
        } else if i == 3 {
            Weekday::Thursday
        } else if i == 4 {
            Weekday::Friday
        } else if i == 5 {
            Weekday::Saturday
        } else {
            Weekday::Sunday
        }
    }

    pub fn num_days_from_monday(&self) -> (r: u8)
        ensures
            r == self.index(),
            r < 7,
    {
        match self {
            Weekday::Monday => 0,
            Weekday::Tuesday => 1,
            Weekday::Wednesday => 2,
            Weekday::Thursday => 3,
            Weekday::Friday => 4,
            Weekday::Saturday => 5,
            Weekday::Sunday => 6,
        }
    }

    pub fn from_num_days_from_monday(n: u8) -> (r: Weekday)
        requires
            n < 7,
        ensures
            r.index() == n,
            r == Weekday::at_index(n as int),
    {
        if n == 0 {
            Weekday::Monday
        } else if n == 1 {
            Weekday::Tuesday
        } else if n == 2 {
            Weekday::Wednesday
        } else if n == 3 {
            Weekday::Thursday
        } else if n == 4 {
            Weekday::Friday
        } else if n == 5 {
            Weekday::Saturday
        } else {
            Weekday::Sunday
        }
    }
}

/// `c` is the lower-case ASCII letter `lower`, written in either case.
pub open spec fn ascii_letter_matches(c: char, lower: char) -> bool {
    c == lower || c as u32 + 32 == lower as u32
}

/// `s` spells `name` (given in lower case) with ASCII letters in either case.
pub open spec fn spells_ignoring_case(s: Seq<char>, name: Seq<char>) -> bool {
    s.len() == name.len() && forall|i: int| 0 <= i < s.len() ==> ascii_letter_matches(s[i], name[i])
}

/// The three-letter abbreviation of the weekday at position `i`, in lower case.
pub open spec fn short_weekday_name(i: int) -> Seq<char> {
    if i == 0 {
        seq!['m', 'o', 'n']
    } else if i == 1 {
        seq!['t', 'u', 'e']
    } else if i == 2 {
        seq!['w', 'e', 'd']
    } else if i == 3 {
        seq!['t', 'h', 'u']
    } else if i == 4 {
        seq!['f', 'r', 'i']
    } else if i == 5 {
        seq!['s', 'a', 't']
    } else {
        seq!['s', 'u', 'n']
    }
}

/// What completes the abbreviation of the weekday at position `i` into its full English name.
pub open spec fn weekday_name_rest(i: int) -> Seq<char> {
    if i == 0 {
        seq!['d', 'a', 'y']
    } else if i == 1 {
        seq!['s', 'd', 'a', 'y']
    } else if i == 2 {
        seq!['n', 'e', 's', 'd', 'a', 'y']
    } else if i == 3 {
        seq!['r', 's', 'd', 'a', 'y']
    } else if i == 4 {
        seq!['d', 'a', 'y']
    } else if i == 5 {
        seq!['u', 'r', 'd', 'a', 'y']
    } else {
        seq!['d', 'a', 'y']
    }
}

/// `s` names the weekday `d`: its English name or the three-letter
/// abbreviation of it, in any mix of upper and lower case.
pub open spec fn names_weekday(s: Seq<char>, d: Weekday) -> bool {
    spells_ignoring_case(s, short_weekday_name(d.index()))
        || spells_ignoring_case(s, short_weekday_name(d.index()) + weekday_name_rest(d.index()))
}

/// Relies on chrono's `FromStr` for `Weekday`: it accepts exactly the English
/// weekday names and their three-letter abbreviations, ignoring ASCII case.
#[verifier::external_body]
fn chrono_weekday(s: &str) -> (r: Option<Weekday>)
    ensures
        match r {
            Some(d) => names_weekday(s@, d),
            None => forall|d: Weekday| !names_weekday(s@, d),
        },
{
    match s.parse::<chrono::Weekday>() {
        Ok(chrono::Weekday::Mon) => Some(Weekday::Monday),
        Ok(chrono::Weekday::Tue) => Some(Weekday::Tuesday),
        Ok(chrono::Weekday::Wed) => Some(Weekday::Wednesday),
        Ok(chrono::Weekday::Thu) => Some(Weekday::Thursday),
        Ok(chrono::Weekday::Fri) => Some(Weekday::Friday),
        Ok(chrono::Weekday::Sat) => Some(Weekday::Saturday),
        Ok(chrono::Weekday::Sun) => Some(Weekday::Sunday),
        Err(_) => None,
    }
}

impl Weekday {
    /// Reads an English weekday name ("Thursday") or its three-letter
    /// abbreviation ("thu"), in any case.
    pub fn parse(s: &str) -> (r: Option<Weekday>)
        ensures
            r matches Some(d) ==> names_weekday(s@, d),
            r is None <==> forall|d: Weekday| !names_weekday(s@, d),
    {
        chrono_weekday(s)
    }
}

/// The weekday of day number `day`; day 1 (0001-01-01) was a Monday.
pub open spec fn weekday_of_day(day: int) -> Weekday {
    Weekday::at_index((day - 1) % 7)
}

/// Days to go from a `from` to the next `to`, zero when they are the same day.
pub open spec fn days_until(from: Weekday, to: Weekday) -> int {
    (to.index() - from.index()) % 7
}

/// A point in time: a local calendar day, a time of that day, and the offset
/// of the local clock from UTC.
#[derive(Clone, Copy, Debug, PartialEq, Eq, Structural)]
pub struct Moment {
    /// Day of the proleptic Gregorian calendar, 0001-01-01 being day 1.
    pub day: i64,
    /// Seconds since local midnight.
    pub second: u32,
    /// Seconds to add to UTC to obtain local time.
    pub offset: i32,
}

impl Moment {
    pub open spec fn wf(self) -> bool {
        &&& MIN_DAY <= self.day <= MAX_DAY
        &&& self.second < DAY_SECONDS
        &&& -86400 < self.offset < 86400
    }

    /// Position on the UTC time line, in seconds.
    pub open spec fn instant(self) -> int {
        self.day * 86400 + self.second - self.offset
    }

    pub open spec fn weekday(self) -> Weekday {
        weekday_of_day(self.day as int)
    }

    /// The moment with the given local day, time of day and offset, if those
    /// are in range.
    pub fn new(day: i64, second: u32, offset: i32) -> (r: Option<Moment>)
        ensures
            r == (if (Moment { day, second, offset }).wf() {
                Some(Moment { day, second, offset })
            } else {
                None
            }),
    {
        let m = Moment { day, second, offset };
        if m.is_valid() {
            Some(m)
        } else {
            None
        }
    }

    pub fn is_valid(&self) -> (r: bool)
        ensures
            r == self.wf(),
    {
        MIN_DAY <= self.day && self.day <= MAX_DAY && self.second < DAY_SECONDS && -86400
            < self.offset && self.offset < 86400
    }

    /// Seconds on the UTC time line.
    pub fn utc_seconds(&self) -> (r: i64)
        requires
            self.wf(),
        ensures
            r == self.instant(),
    {
        self.day * 86400 + self.second as i64 - self.offset as i64
    }

    /// Whether `self` comes strictly before `other` on the UTC time line.
    pub fn is_before(&self, other: &Moment) -> (r: bool)
        requires
            self.wf(),
            other.wf(),
        ensures
            r == (self.instant() < other.instant()),
    {
        self.utc_seconds() < other.utc_seconds()
    }

    pub fn day_of_week(&self) -> (r: Weekday)
        requires
            self.wf(),
        ensures
            r == self.weekday(),
    {
        // 2147483653 is a multiple of 7 that keeps the dividend non-negative.
        let shifted: i64 = self.day - 1 + 2147483653;
        let n = (shifted % 7) as u8;
        proof {
            assert(2147483653int == 7 * 306783379int);
            assert((self.day - 1 + 7 * 306783379int) % 7 == (self.day - 1) % 7) by {
                vstd::arithmetic::div_mod::lemma_mod_add_multiples_vanish(self.day - 1, 7);
            }
        }
        Weekday::from_num_days_from_monday(n)
    }
}

/// Local day number, seconds since local midnight and offset from UTC that
/// chrono reads from an RFC 3339 text.
pub uninterp spec fn rfc3339_reading(s: Seq<char>) -> Option<(i32, u32, i32)>;

/// Relies on chrono's `DateTime::parse_from_rfc3339`, read back through
/// `num_days_from_ce`, `num_seconds_from_midnight` (below 86400) and
/// `FixedOffset::local_minus_utc` (strictly between -86400 and 86400).
#[verifier::external_body]
fn chrono_rfc3339(s: &str) -> (r: Option<(i32, u32, i32)>)
    ensures
        r == rfc3339_reading(s@),
        r matches Some(f) ==> f.1 < 86400 && -86400 < f.2 < 86400,
{
    match chrono::DateTime::parse_from_rfc3339(s) {
        Ok(dt) => Some((
            dt.date_naive().num_days_from_ce(),
            dt.time().num_seconds_from_midnight(),
            dt.offset().local_minus_utc(),
        )),
        Err(_) => None,
    }
}

/// Relies on chrono's `Local::now`: the current local time, read back as in
/// `chrono_rfc3339`. Nothing is known of which moment it is.
#[verifier::external_body]
fn chrono_now() -> (r: (i32, u32, i32))
    ensures
        r.1 < 86400,
        -86400 < r.2 < 86400,
{
    let dt = chrono::Local::now();
    (
        dt.date_naive().num_days_from_ce(),
        dt.time().num_seconds_from_midnight(),
        dt.offset().local_minus_utc(),
    )
}

/// The earlier of two optional moments on the UTC time line, the first one on
/// a tie; a missing one never wins.
pub open spec fn earlier(a: Option<Moment>, b: Option<Moment>) -> Option<Moment> {
    match (a, b) {
        (Some(x), Some(y)) => if x.instant() <= y.instant() {
            a
        } else {
            b
        },
        (Some(_), None) => a,
        (None, _) => b,
    }
}

/// Taking the earlier of three is the same whichever two are taken first.
pub proof fn lemma_earlier_assoc(a: Option<Moment>, b: Option<Moment>, c: Option<Moment>)
    ensures
        earlier(earlier(a, b), c) == earlier(a, earlier(b, c)),
{
}

/// The moment at UTC position `instant`, read on a clock at `offset`, if its
/// day is in range.
pub open spec fn on_clock(instant: int, offset: i32) -> Option<Moment> {
    let v = instant + offset;
    if MIN_DAY <= v / 86400 <= MAX_DAY {
        Some(Moment { day: (v / 86400) as i64, second: (v % 86400) as u32, offset })
    } else {
        None
    }
}

/// The earlier of two is no later than either, and a missing one never wins.
pub proof fn lemma_earlier_bounds(a: Option<Moment>, b: Option<Moment>)
    ensures
        a matches Some(y) ==> (earlier(a, b) matches Some(n) && n.instant() <= y.instant()),
        b matches Some(y) ==> (earlier(a, b) matches Some(n) && n.instant() <= y.instant()),
        earlier(a, b) matches Some(n) ==> (a == Some(n) || b == Some(n)),
{
}

/// Two valid moments on one clock at the same instant are the same moment.
pub proof fn lemma_same_instant_same_moment(a: Moment, b: Moment)
    requires
        a.wf(),
        b.wf(),
        a.offset == b.offset,
        a.instant() == b.instant(),
    ensures
        a == b,
{
    if a.day > b.day {
        assert(86400 * (a.day - b.day) >= 86400);
    } else if a.day < b.day {
        assert(86400 * (b.day - a.day) >= 86400);
    }
}

/// Reading a moment's instant on its own clock gives the moment back; reading
/// any instant on a clock gives, where its day is in range, a valid moment at
/// that instant.
pub proof fn lemma_on_clock(m: Moment, instant: int, offset: i32)
    requires
        m.wf(),
        -86400 < offset < 86400,
    ensures
        on_clock(m.instant(), m.offset) == Some(m),
        on_clock(instant, offset) matches Some(r) ==> r.wf() && r.instant() == instant && r.offset
            == offset,
        on_clock(instant, offset) is None ==> instant + offset < MIN_DAY * 86400 || instant + offset
            >= (MAX_DAY + 1) * 86400,
{
    lemma_fundamental_div_mod_converse(
        m.instant() + m.offset,
        86400,
        m.day as int,
        m.second as int,
    );
    lemma_fundamental_div_mod(instant + offset, 86400);
    let q = (instant + offset) / 86400;
    if q < MIN_DAY {
        assert(86400 * (MIN_DAY - q) >= 86400);
    } else if q > MAX_DAY {
        assert(86400 * (q - MAX_DAY) >= 86400);
    }
}

/// The earlier of two optional moments on the UTC time line, the first one on a tie.
pub fn earlier_of(a: Option<Moment>, b: Option<Moment>) -> (r: Option<Moment>)
    requires
        a matches Some(x) ==> x.wf(),
        b matches Some(y) ==> y.wf(),
    ensures
        r == earlier(a, b),
{
    match (a, b) {
        (Some(x), Some(y)) => if y.is_before(&x) {
            b
        } else {
            a
        },
        (Some(_), None) => a,
        (None, _) => b,
    }
}

impl Moment {
    /// The moment at UTC position `instant` (seconds), read on a clock at
    /// `offset`, if its day is in range.
    pub fn at_instant(instant: i64, offset: i32) -> (r: Option<Moment>)
        requires
            -0x1_0000_0000 * 86400 <= instant <= 0x1_0000_0000 * 86400,
            -86400 < offset < 86400,
        ensures
            r == on_clock(instant as int, offset),
            r matches Some(m) ==> m.wf() && m.instant() == instant,
    {
        let v: i64 = instant + offset as i64;
        let w: i64 = v + 0x1_0000_0002 * 86400;
        let day: i64 = w / 86400 - 0x1_0000_0002;
        let second: i64 = w % 86400;
        proof {
            lemma_fundamental_div_mod(v as int, 86400);
            lemma_fundamental_div_mod_converse(
                w as int,
                86400,
                v as int / 86400 + 0x1_0000_0002,
                v as int % 86400,
            );
        }
        if MIN_DAY <= day && day <= MAX_DAY {
            Some(Moment { day, second: second as u32, offset })
        } else {
            None
        }
    }

    /// Reads an RFC 3339 date and time, such as `2020-01-16T10:15:00-06:00`.
    pub fn parse_from_rfc3339(s: &str) -> (r: Option<Moment>)
        ensures
            r == (match rfc3339_reading(s@) {
                Some(f) => Some(Moment { day: f.0 as i64, second: f.1, offset: f.2 }),
                None => None,
            }),
            r matches Some(m) ==> m.wf(),
    {
        match chrono_rfc3339(s) {
            Some(f) => Some(Moment { day: f.0 as i64, second: f.1, offset: f.2 }),
            None => None,
        }
    }

    /// The current moment on the local clock.
    pub fn now() -> (r: Moment)
        ensures
            r.wf(),
    {
        let f = chrono_now();
        Moment { day: f.0 as i64, second: f.1, offset: f.2 }
    }
}

} // verus!
