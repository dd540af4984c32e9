//! Patterns of instants ("every Thursday at 07:00") and the occurrences they
//! generate from a basis instant.

use crate::moment::{
    days_until, lemma_on_clock, lemma_same_instant_same_moment, names_weekday, on_clock,
    weekday_of_day, Moment, Weekday, DAY_SECONDS, MAX_DAY, MIN_DAY,
};
use chrono::Timelike;
use vstd::arithmetic::div_mod::{lemma_fundamental_div_mod, lemma_fundamental_div_mod_converse_mod};
use vstd::prelude::*;

verus! {

/// Seconds since midnight of the time of day that chrono reads from `s` under
/// the format `fmt`.
pub uninterp spec fn naive_time_reading(s: Seq<char>, fmt: Seq<char>) -> Option<u32>;

/// Relies on chrono's `NaiveTime::parse_from_str`, read back through
/// `num_seconds_from_midnight` (below 86400).
#[verifier::external_body]
fn chrono_naive_time(s: &str, fmt: &str) -> (r: Option<u32>)
    ensures
        r == naive_time_reading(s@, fmt@),
        r matches Some(t) ==> t < 86400,
{
    match chrono::NaiveTime::parse_from_str(s, fmt) {
        Ok(t) => Some(t.num_seconds_from_midnight()),
        Err(_) => None,
    }
}

/// A time of day written `HH:MM`, or else `HH:MM:SS`, as seconds since midnight.
pub open spec fn time_of_day_reading(s: Seq<char>) -> Option<u32> {
    match naive_time_reading(s, "%H:%M"@) {
        Some(t) => Some(t),
        None => naive_time_reading(s, "%H:%M:%S"@),
    }
}

/// Reads a time of day written `HH:MM` or `HH:MM:SS`, as seconds since midnight.
pub fn parse_time_of_day(s: &str) -> (r: Option<u32>)
    ensures
        r == time_of_day_reading(s@),
        r matches Some(t) ==> t < DAY_SECONDS,
{
    match chrono_naive_time(s, "%H:%M") {
        Some(t) => Some(t),
        None => chrono_naive_time(s, "%H:%M:%S"),
    }
}

/// Why a specifier could not be built.
#[derive(Clone, Copy, Debug, PartialEq, Eq, Structural)]
pub enum InvalidSpecifier {
    /// The day is not an English weekday name.
    UnknownDay,
    /// The time is not written `HH:MM` or `HH:MM:SS`.
    MalformedTime,
}

/// When something happens: once, every day, or every week.
#[derive(Clone, Copy, Debug, PartialEq, Eq, Structural)]
pub enum Specifier {
    /// Every week on `day`, at `time` seconds after local midnight.
    Weekly { day: Weekday, time: u32 },
    /// Every day at `time` seconds after local midnight.
    Daily { time: u32 },
    /// Exactly once.
    Exact(Moment),
}

/// The moment at `second` of local day `day` on a clock at `offset`, if the
/// day is in range.
pub open spec fn on_day(day: int, second: u32, offset: i32) -> Option<Moment> {
    if MIN_DAY <= day <= MAX_DAY {
        Some(Moment { day: day as i64, second, offset })
    } else {
        None
    }
}

/// Days to go from `from` to the next `to`.
fn days_until_exec(from: Weekday, to: Weekday) -> (r: u8)
    ensures
        r == days_until(from, to),
        r < 7,
{
    let f = from.num_days_from_monday();
    let t = to.num_days_from_monday();
    (t + 7 - f) % 7
}

impl Specifier {
    pub open spec fn wf(self) -> bool {
        match self {
            Specifier::Weekly { time, .. } => time < DAY_SECONDS,
            Specifier::Daily { time } => time < DAY_SECONDS,
            Specifier::Exact(m) => m.wf(),
        }
    }

    /// The `k`-th occurrence (counting from 0) generated from `basis`: the
    /// first is on the basis's own day when the pattern fires that day, else
    /// on the next day it fires; `None` past the range of days.
    pub open spec fn occurrence(self, basis: Moment, k: nat) -> Option<Moment> {
        match self {
            Specifier::Exact(x) => if k == 0 {
                Some(x)
            } else {
                None
            },
            Specifier::Daily { time } => on_day(basis.day + k, time, basis.offset),
            Specifier::Weekly { day, time } => on_day(
                basis.day + days_until(basis.weekday(), day) + 7 * k,
                time,
                basis.offset,
            ),
        }
    }

    /// Up to `n` occurrences generated from `basis`, starting with the
    /// `from`-th; fewer where the generator runs out.
    pub open spec fn occurrences(self, basis: Moment, from: nat, n: nat) -> Seq<Moment>
        decreases n,
    {
        if n == 0 {
            Seq::empty()
        } else {
            match self.occurrence(basis, from) {
                Some(m) => seq![m] + self.occurrences(basis, from + 1, (n - 1) as nat),
                None => Seq::empty(),
            }
        }
    }

    /// The latest occurrence at or before `t`, reckoned on `t`'s clock.
    pub open spec fn latest_until(self, t: Moment) -> Option<Moment> {
        match self {
            Specifier::Exact(x) => if x.instant() <= t.instant() {
                Some(x)
            } else {
                None
            },
            Specifier::Daily { time } => if time <= t.second {
                on_day(t.day as int, time, t.offset)
            } else {
                on_day(t.day - 1, time, t.offset)
            },
            Specifier::Weekly { day, time } => {
                let back = days_until(day, t.weekday());
                if back > 0 || time <= t.second {
                    on_day(t.day - back, time, t.offset)
                } else {
                    on_day(t.day - 7, time, t.offset)
                }
            },
        }
    }

    /// The earliest occurrence strictly after `o`, reckoned on `o`'s clock.
    pub open spec fn first_after(self, o: Moment) -> Option<Moment> {
        match self {
            Specifier::Exact(x) => if o.instant() < x.instant() {
                Some(x)
            } else {
                None
            },
            Specifier::Daily { time } => if o.second < time {
                on_day(o.day as int, time, o.offset)
            } else {
                on_day(o.day + 1, time, o.offset)
            },
            Specifier::Weekly { day, time } => {
                let ahead = days_until(o.weekday(), day);
                if ahead > 0 || o.second < time {
                    on_day(o.day + ahead, time, o.offset)
                } else {
                    on_day(o.day + 7, time, o.offset)
                }
            },
        }
    }

    pub fn is_valid(&self) -> (r: bool)
        ensures
            r == self.wf(),
    {
        match self {
            Specifier::Weekly { time, .. } => *time < DAY_SECONDS,
            Specifier::Daily { time } => *time < DAY_SECONDS,
            Specifier::Exact(m) => m.is_valid(),
        }
    }

    /// Every week on the named day (an English weekday name or its
    /// abbreviation) at the given time of day (`HH:MM` or `HH:MM:SS`).
    pub fn weekly(day: &str, time: &str) -> (r: Result<Specifier, InvalidSpecifier>)
        ensures
            r == Err::<Specifier, InvalidSpecifier>(InvalidSpecifier::UnknownDay) <==> forall|d: Weekday|
                !names_weekday(day@, d),
            r == Err::<Specifier, InvalidSpecifier>(InvalidSpecifier::MalformedTime) <==> (exists|d: Weekday|
                names_weekday(day@, d)) && time_of_day_reading(time@) is None,
            r matches Ok(s) ==> s.wf() && (s matches Specifier::Weekly { day: d, time: t } && names_weekday(
                day@,
                d,
            ) && time_of_day_reading(time@) == Some(t)),
    {
        match Weekday::parse(day) {
            None => Err(InvalidSpecifier::UnknownDay),
            Some(d) => match parse_time_of_day(time) {
                None => Err(InvalidSpecifier::MalformedTime),
                Some(t) => Ok(Specifier::Weekly { day: d, time: t }),
            },
        }
    }

    /// Every day at the given time of day (`HH:MM` or `HH:MM:SS`).
    pub fn daily(time: &str) -> (r: Result<Specifier, InvalidSpecifier>)
        ensures
            r == (match time_of_day_reading(time@) {
                Some(t) => Ok(Specifier::Daily { time: t }),
                None => Err(InvalidSpecifier::MalformedTime),
            }),
            r matches Ok(s) ==> s.wf(),
    {
        match parse_time_of_day(time) {
            None => Err(InvalidSpecifier::MalformedTime),
            Some(t) => Ok(Specifier::Daily { time: t }),
        }
    }

    /// The occurrences of this pattern, generated from `basis`.
    pub fn instances(&self, basis: &Moment) -> (r: Instances)
        requires
            self.wf(),
            basis.wf(),
        ensures
            r.wf(),
            r.specifier() == *self,
            r.basis() == *basis,
            r.drawn() == 0,
    {
        Instances { specifier: *self, basis: *basis, drawn: 0 }
    }

    /// The first `n` occurrences generated from `basis` (fewer where the
    /// generator runs out).
    pub fn next(&self, n: usize, basis: &Moment) -> (r: Vec<Moment>)
        requires
            self.wf(),
            basis.wf(),
        ensures
            r@ == self.occurrences(*basis, 0, n as nat),
    {
        self.instances(basis).take(n)
    }

    /// The latest occurrence at or before `t`, reckoned on `t`'s clock.
    pub fn latest_at_or_before(&self, t: &Moment) -> (r: Option<Moment>)
        requires
            self.wf(),
            t.wf(),
        ensures
            r == self.latest_until(*t),
            r matches Some(m) ==> m.wf() && m.instant() <= t.instant(),
    {
        match *self {
            Specifier::Exact(x) => {
                if t.is_before(&x) {
                    None
                } else {
                    Some(x)
                }
            },
            Specifier::Daily { time } => {
                if time <= t.second {
                    Some(Moment { day: t.day, second: time, offset: t.offset })
                } else if t.day > MIN_DAY {
                    Some(Moment { day: t.day - 1, second: time, offset: t.offset })
                } else {
                    None
                }
            },
            Specifier::Weekly { day, time } => {
                let back = days_until_exec(day, t.day_of_week());
                let d: i64 = if back > 0 || time <= t.second {
                    t.day - back as i64
                } else {
                    t.day - 7
                };
                if d >= MIN_DAY {
                    Some(Moment { day: d, second: time, offset: t.offset })
                } else {
                    None
                }
            },
        }
    }

    /// The earliest occurrence strictly after `o`, reckoned on `o`'s clock:
    /// the first or the second that the generator gives from `o`.
    pub fn earliest_after(&self, o: &Moment) -> (r: Option<Moment>)
        requires
            self.wf(),
            o.wf(),
        ensures
            r == self.first_after(*o),
            r matches Some(m) ==> m.wf() && o.instant() < m.instant(),
    {
        let mut it = self.instances(o);
        match it.next() {
            None => None,
            Some(c) => {
                if o.is_before(&c) {
                    Some(c)
                } else {
                    it.next()
                }
            },
        }
    }
}

/// The first occurrence of `s`, where there is a specifier, strictly after `c`.
pub open spec fn next_of(s: Option<Specifier>, c: Moment) -> Option<Moment> {
    match s {
        Some(s) => s.first_after(c),
        None => None,
    }
}

/// The first occurrence of `s`, where there is a specifier, strictly after `c`.
pub fn next_occurrence_after(s: &Option<Specifier>, c: &Moment) -> (r: Option<Moment>)
    requires
        s matches Some(x) ==> x.wf(),
        c.wf(),
    ensures
        r == next_of(*s, *c),
        r matches Some(m) ==> m.wf() && c.instant() < m.instant(),
{
    match s {
        Some(x) => x.earliest_after(c),
        None => None,
    }
}

/// Whether `t` lies in a window that opens at an occurrence of `open` and
/// closes at the next occurrence of `close`: the latest opening at or before
/// `t` exists, and no closing has come between it and `t`. Both patterns are
/// read on `t`'s clock.
pub open spec fn window_holds(open: Specifier, close: Specifier, t: Moment) -> bool {
    match open.latest_until(t) {
        None => false,
        Some(o) => match on_clock(o.instant(), t.offset) {
            None => false,
            Some(o) => match close.first_after(o) {
                None => true,
                Some(c) => t.instant() < c.instant(),
            },
        },
    }
}

/// Whether `t` lies in the window from the latest occurrence of `open` at or
/// before `t` to the first occurrence of `close` after that opening.
pub fn window_contains(open: &Specifier, close: &Specifier, t: &Moment) -> (r: bool)
    requires
        open.wf(),
        close.wf(),
        t.wf(),
    ensures
        r == window_holds(*open, *close, *t),
{
    match open.latest_at_or_before(t) {
        None => false,
        Some(o) => match Moment::at_instant(o.utc_seconds(), t.offset) {
            None => false,
            Some(o) => match close.earliest_after(&o) {
                None => true,
                Some(c) => t.is_before(&c),
            },
        },
    }
}

/// The occurrences of a specifier from a basis instant, drawn one at a time.
#[derive(Clone, Copy, Debug)]
pub struct Instances {
    specifier: Specifier,
    basis: Moment,
    drawn: u64,
}

impl Instances {
    pub closed spec fn specifier(self) -> Specifier {
        self.specifier
    }

    pub closed spec fn basis(self) -> Moment {
        self.basis
    }

    /// How many occurrences have been drawn so far.
    pub closed spec fn drawn(self) -> nat {
        self.drawn as nat
    }

    pub closed spec fn wf(self) -> bool {
        &&& self.specifier.wf()
        &&& self.basis.wf()
        &&& self.drawn <= 0x1_0000_0000
    }

    /// The next `n` occurrences that drawing from here gives.
    pub open spec fn upcoming(self, n: nat) -> Seq<Moment> {
        self.specifier().occurrences(self.basis(), self.drawn(), n)
    }

    /// Draws the next occurrence; `None` once the generator has run out.
    pub fn next(&mut self) -> (r: Option<Moment>)
        requires
            old(self).wf(),
        ensures
            final(self).wf(),
            final(self).specifier() == old(self).specifier(),
            final(self).basis() == old(self).basis(),
            r == old(self).specifier().occurrence(old(self).basis(), old(self).drawn()),
            final(self).drawn() == old(self).drawn() + (if r is Some {
                1nat
            } else {
                0nat
            }),
            r matches Some(m) ==> m.wf(),
    {
        match self.specifier {
            Specifier::Exact(x) => {
                if self.drawn == 0 {
                    self.drawn = 1;
                    Some(x)
                } else {
                    None
                }
            },
            Specifier::Daily { time } => {
                let day: i64 = self.basis.day + self.drawn as i64;
                if day <= MAX_DAY {
                    self.drawn = self.drawn + 1;
                    Some(Moment { day, second: time, offset: self.basis.offset })
                } else {
                    None
                }
            },
            Specifier::Weekly { day: weekday, time } => {
                let ahead = days_until_exec(self.basis.day_of_week(), weekday);
                let day: i64 = self.basis.day + ahead as i64 + 7 * self.drawn as i64;
                if day <= MAX_DAY {
                    self.drawn = self.drawn + 1;
                    Some(Moment { day, second: time, offset: self.basis.offset })
                } else {
                    None
                }
            },
        }
    }

    /// Draws up to `n` occurrences, stopping early where the generator runs out.
    pub fn take(self, n: usize) -> (r: Vec<Moment>)
        requires
            self.wf(),
        ensures
            r@ == self.upcoming(n as nat),
    {
        let mut it = self;
        let mut out: Vec<Moment> = Vec::new();
        let mut i: usize = 0;
        while i < n
            invariant
                it.wf(),
                it.specifier() == self.specifier(),
                it.basis() == self.basis(),
                i <= n,
                out@ + it.upcoming((n - i) as nat) == self.upcoming(n as nat),
            decreases n - i,
        {
            let r = it.next();
            match r {
                None => {
                    assert(out@ + it.upcoming((n - i) as nat) == out@);
                    return out;
                },
                Some(m) => {
                    out.push(m);
                    i = i + 1;
                },
            }
        }
        assert(it.upcoming(0) == Seq::<Moment>::empty());
        assert(out@ + Seq::<Moment>::empty() == out@);
        out
    }
}

/// `s` fires at `m`, its pattern read on `m`'s clock.
pub open spec fn fires_at(s: Specifier, m: Moment) -> bool {
    match s {
        Specifier::Exact(x) => m.instant() == x.instant(),
        Specifier::Daily { time } => m.second == time,
        Specifier::Weekly { day, time } => m.second == time && m.weekday() == day,
    }
}

/// Days on the same weekday are a whole number of weeks apart.
proof fn lemma_same_weekday_weeks_apart(a: int, b: int)
    requires
        weekday_of_day(a) == weekday_of_day(b),
    ensures
        a - b == 7 * ((a - 1) / 7 - (b - 1) / 7),
{
    lemma_fundamental_div_mod(a - 1, 7);
    lemma_fundamental_div_mod(b - 1, 7);
    assert(weekday_of_day(a).index() == (a - 1) % 7);
    assert(weekday_of_day(b).index() == (b - 1) % 7);
}

/// Day `day` moved back to the last `w` (staying put when it already is one)
/// falls on a `w`.
proof fn lemma_weekday_before_shift(day: int, w: Weekday)
    ensures
        weekday_of_day(day - days_until(w, weekday_of_day(day))) == w,
        0 <= days_until(w, weekday_of_day(day)) < 7,
{
    let x = day - 1;
    let r = x % 7;
    let q = x / 7;
    lemma_fundamental_div_mod(x, 7);
    assert(weekday_of_day(day).index() == r);
    let wi = w.index();
    if r >= wi {
        lemma_fundamental_div_mod_converse_mod(r - wi, 7, 0, r - wi);
        lemma_fundamental_div_mod_converse_mod(x - (r - wi), 7, q, wi);
    } else {
        lemma_fundamental_div_mod_converse_mod(r - wi, 7, -1, r - wi + 7);
        lemma_fundamental_div_mod_converse_mod(x - (r - wi + 7), 7, q - 1, wi);
    }
}

/// The latest occurrence at or before `t` is one at which the pattern fires,
/// and no instant at which it fires on `t`'s clock, at or before `t`, comes
/// after it; where there is such an instant, there is a latest occurrence.
pub proof fn lemma_latest_until_is_latest(s: Specifier, t: Moment)
    requires
        s.wf(),
        t.wf(),
    ensures
        s.latest_until(t) matches Some(l) ==> fires_at(s, l) && l.instant() <= t.instant(),
        forall|m: Moment|
            m.wf() && m.offset == t.offset && #[trigger] fires_at(s, m) && m.instant() <= t.instant()
                ==> (s.latest_until(t) matches Some(l) && m.instant() <= l.instant()),
{
    if let Specifier::Weekly { day, time } = s {
        lemma_weekday_before_shift(t.day as int, day);
        let back = days_until(day, t.weekday());
        assert forall|m: Moment|
            m.wf() && m.offset == t.offset && #[trigger] fires_at(s, m) && m.instant()
                <= t.instant() implies (s.latest_until(t) matches Some(l) && m.instant()
            <= l.instant()) by {
            lemma_same_weekday_weeks_apart(m.day as int, t.day - back);
        }
    }
}

/// The first occurrence after `o` is one at which the pattern fires, after
/// `o`, and no instant at which it fires on `o`'s clock, after `o`, comes
/// before it; where there is such an instant, there is a first occurrence.
pub proof fn lemma_first_after_is_first(s: Specifier, o: Moment)
    requires
        s.wf(),
        o.wf(),
    ensures
        s.first_after(o) matches Some(f) ==> fires_at(s, f) && o.instant() < f.instant(),
        forall|m: Moment|
            m.wf() && m.offset == o.offset && #[trigger] fires_at(s, m) && o.instant() < m.instant()
                ==> (s.first_after(o) matches Some(f) && f.instant() <= m.instant()),
{
    if let Specifier::Weekly { day, time } = s {
        lemma_weekday_after_shift(o.day as int, day, 0);
        lemma_weekday_after_shift(o.day as int, day, 1);
        let ahead = days_until(o.weekday(), day);
        assert forall|m: Moment|
            m.wf() && m.offset == o.offset && #[trigger] fires_at(s, m) && o.instant()
                < m.instant() implies (s.first_after(o) matches Some(f) && f.instant()
            <= m.instant()) by {
            lemma_same_weekday_weeks_apart(m.day as int, o.day + ahead);
        }
    }
}

/// Where `s` does not fire on `c`'s clock from just after `c` up to `x`, the
/// latest occurrence at or before `x` is the one at or before `c`.
pub proof fn lemma_latest_until_stable(s: Specifier, c: Moment, x: Moment)
    requires
        s.wf(),
        c.wf(),
        x.wf(),
        c.offset == x.offset,
        c.instant() <= x.instant(),
        s.first_after(c) matches Some(f) ==> x.instant() < f.instant(),
    ensures
        s.latest_until(x) == s.latest_until(c),
{
    if !(s is Exact) {
        lemma_latest_until_is_latest(s, x);
        lemma_latest_until_is_latest(s, c);
        lemma_first_after_is_first(s, c);
        match s.latest_until(c) {
            Some(lc) => {
                assert(fires_at(s, lc));
                let lx = s.latest_until(x).unwrap();
                assert(fires_at(s, lx));
                if c.instant() < lx.instant() {
                    assert(fires_at(s, lx));
                }
                lemma_same_instant_same_moment(lx, lc);
            },
            None => {
                if let Some(lx) = s.latest_until(x) {
                    assert(fires_at(s, lx));
                }
            },
        }
    }
}

/// Where neither pattern fires on `c`'s clock from just after `c` up to `x`,
/// `x` is in the window exactly when `c` is.
pub proof fn lemma_window_stable(open: Specifier, close: Specifier, c: Moment, x: Moment)
    requires
        open.wf(),
        close.wf(),
        c.wf(),
        x.wf(),
        c.offset == x.offset,
        c.instant() <= x.instant(),
        open.first_after(c) matches Some(f) ==> x.instant() < f.instant(),
        close.first_after(c) matches Some(f) ==> x.instant() < f.instant(),
    ensures
        window_holds(open, close, x) == window_holds(open, close, c),
{
    lemma_latest_until_stable(open, c, x);
    if let Some(o) = open.latest_until(c) {
        lemma_latest_until_is_latest(open, c);
        lemma_on_clock(c, o.instant(), c.offset);
        if let Some(o2) = on_clock(o.instant(), c.offset) {
            lemma_first_after_is_first(close, o2);
            lemma_first_after_is_first(close, c);
            if let Some(cc) = close.first_after(o2) {
                if !(close is Exact) {
                    assert(fires_at(close, cc));
                }
            }
        }
    }
}

/// Where none of the `n` occurrences from the `from`-th on is missing, the
/// drawn prefix has all of them, in order.
proof fn lemma_occurrences_full(s: Specifier, b: Moment, from: nat, n: nat)
    requires
        forall|i: int| 0 <= i < n ==> #[trigger] s.occurrence(b, (from + i) as nat) is Some,
    ensures
        s.occurrences(b, from, n).len() == n,
        forall|i: int|
            0 <= i < n ==> #[trigger] s.occurrences(b, from, n)[i] == s.occurrence(
                b,
                (from + i) as nat,
            ).unwrap(),
    decreases n,
{
    if n > 0 {
        assert(s.occurrence(b, (from + 0) as nat) is Some);
        assert forall|i: int| 0 <= i < n - 1 implies #[trigger] s.occurrence(
            b,
            (from + 1 + i) as nat,
        ) is Some by {
            assert(s.occurrence(b, (from + (i + 1)) as nat) is Some);
        }
        lemma_occurrences_full(s, b, from + 1, (n - 1) as nat);
        let rest = s.occurrences(b, from + 1, (n - 1) as nat);
        assert forall|i: int| 0 <= i < n implies #[trigger] s.occurrences(b, from, n)[i]
            == s.occurrence(b, (from + i) as nat).unwrap() by {
            if i > 0 {
                assert(rest[i - 1] == s.occurrence(b, (from + 1 + (i - 1)) as nat).unwrap());
            }
        }
    }
}

/// Day `day` moved forward to the next `w` (staying put when it already is
/// one), and then by whole weeks, falls on a `w`.
proof fn lemma_weekday_after_shift(day: int, w: Weekday, k: int)
    ensures
        weekday_of_day(day + days_until(weekday_of_day(day), w) + 7 * k) == w,
        0 <= days_until(weekday_of_day(day), w) < 7,
{
    let x = day - 1;
    let r = x % 7;
    let q = x / 7;
    lemma_fundamental_div_mod(x, 7);
    assert(weekday_of_day(day).index() == r);
    let wi = w.index();
    if wi >= r {
        lemma_fundamental_div_mod_converse_mod(wi - r, 7, 0, wi - r);
        lemma_fundamental_div_mod_converse_mod(x + (wi - r) + 7 * k, 7, q + k, wi);
    } else {
        lemma_fundamental_div_mod_converse_mod(wi - r, 7, -1, wi - r + 7);
        lemma_fundamental_div_mod_converse_mod(x + (wi - r + 7) + 7 * k, 7, q + k + 1, wi);
    }
}

/// The daily pattern at `time`.
pub open spec fn daily(time: u32) -> Specifier {
    Specifier::Daily { time }
}

/// The weekly pattern on `day` at `time`.
pub open spec fn weekly(day: Weekday, time: u32) -> Specifier {
    Specifier::Weekly { day, time }
}

/// The moment at `second` of local day `day` on a clock at `offset`.
pub open spec fn moment_at(day: int, second: u32, offset: i32) -> Moment {
    Moment { day: day as i64, second, offset }
}

/// Daily patterns: as long as the days stay in range, the first `n`
/// occurrences drawn from `basis` are on the basis's day and each following
/// day, at the pattern's time, on the basis's clock.
pub proof fn lemma_daily_occurrences(time: u32, basis: Moment, n: nat)
    requires
        time < DAY_SECONDS,
        basis.wf(),
        basis.day + n - 1 <= MAX_DAY,
    ensures
        daily(time).occurrences(basis, 0, n).len() == n,
        forall|i: int|
            0 <= i < n ==> #[trigger] daily(time).occurrences(basis, 0, n)[i] == moment_at(
                basis.day + i,
                time,
                basis.offset,
            ),
{
    let s = Specifier::Daily { time };
    assert forall|i: int| 0 <= i < n implies #[trigger] s.occurrence(basis, (0 + i) as nat) is Some by {}
    lemma_occurrences_full(s, basis, 0, n);
}

/// Weekly patterns: every occurrence falls on the pattern's weekday, the first
/// within the week that starts on the basis's day, and each next one exactly
/// seven days after the one before.
pub proof fn lemma_weekly_occurrences(day: Weekday, time: u32, basis: Moment, k: nat)
    requires
        time < DAY_SECONDS,
        basis.wf(),
    ensures
        (weekly(day, time).occurrence(basis, k) matches Some(m) ==> m.weekday() == day && m.second
            == time && m.offset == basis.offset),
        (weekly(day, time).occurrence(basis, 0) matches Some(m) ==> basis.day <= m.day < basis.day
            + 7),
        (weekly(day, time).occurrence(basis, k + 1) matches Some(m2) ==> (weekly(
            day,
            time,
        ).occurrence(basis, k) matches Some(m1) && m2.day == m1.day + 7 && m2.instant()
            == m1.instant() + 7 * 86400)),
{
    lemma_weekday_after_shift(basis.day as int, day, k as int);
}

/// An exact pattern gives exactly one occurrence, the instant itself,
/// whatever the basis.
pub proof fn lemma_exact_occurs_once(x: Moment, basis: Moment, n: nat)
    requires
        n >= 1,
    ensures
        (Specifier::Exact(x)).occurrences(basis, 0, n) == seq![x],
{
    let s = Specifier::Exact(x);
    assert(s.occurrences(basis, 1, (n - 1) as nat) == Seq::<Moment>::empty());
    assert(seq![x] + Seq::<Moment>::empty() == seq![x]);
}

/// Two generators built from the same specifier and basis, and drawn the same
/// number of times, give the same occurrences from there on: nothing but the
/// specifier, the basis and the count decides what comes out.
pub proof fn lemma_instances_agree(a: Instances, b: Instances, n: nat)
    requires
        a.specifier() == b.specifier(),
        a.basis() == b.basis(),
        a.drawn() == b.drawn(),
    ensures
        a.upcoming(n) == b.upcoming(n),
{
}

} // verus!
