//! Calendar dates, times of day and combined timestamps.
//!
//! Dates are plain year/month/day records in the Gregorian calendar.
//! Ordering and day-stepping are defined through an injective integer
//! key, which also justifies termination of date-range loops.

use vstd::prelude::*;

verus! {

/// A calendar date in the Gregorian calendar.
#[derive(Clone, Copy, Debug, Hash, PartialEq, Eq, Structural)]
pub struct Date {
    pub year: u16,
    pub month: u8,
    pub day: u8,
}

pub open spec fn spec_is_leap_year(y: int) -> bool {
    y % 4 == 0 && (y % 100 != 0 || y % 400 == 0)
}

pub open spec fn spec_days_in_month(y: int, m: int) -> int {
    if m == 2 {
        if spec_is_leap_year(y) {
            29
        } else {
            28
        }
    } else if m == 4 || m == 6 || m == 9 || m == 11 {
        30
    } else {
        31
    }
}

/// Largest key of any well-formed date: December 31 of the largest year.
pub open spec fn max_date_key() -> int {
    372 * (0xffff as int) + 12 * 31 + 31
}

impl Date {
    /// A well-formed date has a month in 1..=12 and a day that exists in
    /// that month of that year.
    pub open spec fn wf(self) -> bool {
        &&& 1 <= self.month <= 12
        &&& 1 <= self.day <= spec_days_in_month(self.year as int, self.month as int)
    }

    /// An order-preserving integer key: strictly monotone in the
    /// (year, month, day) lexicographic order, and injective on
    /// well-formed dates.
    pub open spec fn key(self) -> int {
        372 * (self.year as int) + 31 * (self.month as int) + (self.day as int)
    }

    pub open spec fn spec_le(self, other: Date) -> bool {
        self.key() <= other.key()
    }

    pub open spec fn spec_lt(self, other: Date) -> bool {
        self.key() < other.key()
    }

    /// The next calendar day.
    pub open spec fn spec_next(self) -> Date {
        if (self.day as int) < spec_days_in_month(self.year as int, self.month as int) {
            Date { year: self.year, month: self.month, day: (self.day + 1) as u8 }
        } else if self.month < 12 {
            Date { year: self.year, month: (self.month + 1) as u8, day: 1 }
        } else {
            Date { year: (self.year + 1) as u16, month: 1, day: 1 }
        }
    }

    /// The date `n` days after `self`.
    pub open spec fn spec_plus_days(self, n: nat) -> Date
        decreases n,
    {
        if n == 0 {
            self
        } else {
            self.spec_plus_days((n - 1) as nat).spec_next()
        }
    }

    /// Returns a well-formed date, or `None` if the month/day combination
    /// does not exist.
    pub fn new(year: u16, month: u8, day: u8) -> (r: Option<Date>)
        ensures
            match r {
                Some(d) => d == (Date { year, month, day }) && d.wf(),
                None => !(Date { year, month, day }).wf(),
            },
    {
        if 1 <= month && month <= 12 && 1 <= day && day <= days_in_month(year, month) {
            Some(Date { year, month, day })
        } else {
            None
        }
    }

    pub fn le(self, other: Date) -> (r: bool)
        ensures
            r == self.spec_le(other),
    {
        self.key_value() <= other.key_value()
    }

    pub fn lt(self, other: Date) -> (r: bool)
        ensures
            r == self.spec_lt(other),
    {
        self.key_value() < other.key_value()
    }

    /// The key as a machine integer; fits easily in `u64`.
    pub fn key_value(self) -> (k: u64)
        ensures
            k as int == self.key(),
    {
        372 * (self.year as u64) + 31 * (self.month as u64) + (self.day as u64)
    }

    /// Steps to the next calendar day.
    pub fn next_day(self) -> (r: Date)
        requires
            self.wf(),
            self.key() < max_date_key(),
        ensures
            r == self.spec_next(),
            r.wf(),
            self.key() < r.key() <= self.key() + 4,
    {
        proof {
            self.lemma_next_wf();
        }
        if self.day < days_in_month(self.year, self.month) {
            Date { year: self.year, month: self.month, day: self.day + 1 }
        } else if self.month < 12 {
            Date { year: self.year, month: self.month + 1, day: 1 }
        } else {
            Date { year: self.year + 1, month: 1, day: 1 }
        }
    }

    /// The date `n` days later; `n` is small enough that every
    /// intermediate date stays representable.
    pub fn plus_days(self, n: u8) -> (r: Date)
        requires
            self.wf(),
            self.key() + 4 * (n as int) <= max_date_key(),
        ensures
            r == self.spec_plus_days(n as nat),
            r.wf(),
            self.key() + n as int <= r.key() <= self.key() + 4 * (n as int),
    {
        let mut cur = self;
        let mut i: u8 = 0;
        proof {
            self.lemma_plus_days_chain(n as nat);
        }
        while i < n
            invariant
                i <= n,
                self.wf(),
                self.key() + 4 * (n as int) <= max_date_key(),
                cur == self.spec_plus_days(i as nat),
                forall|j: nat|
                    j <= n ==> (#[trigger] self.spec_plus_days(j)).wf()
                        && self.key() + j <= self.spec_plus_days(j).key() <= self.key() + 4 * j,
            decreases n - i,
        {
            proof {
                assert(self.spec_plus_days((i + 1) as nat) == self.spec_plus_days(
                    i as nat,
                ).spec_next());
            }
            cur = cur.next_day();
            i = i + 1;
        }
        cur
    }

    /// Stepping a well-formed, non-maximal date yields a well-formed date
    /// with a strictly larger key, at most four larger.
    pub proof fn lemma_next_wf(self)
        requires
            self.wf(),
            self.key() < max_date_key(),
        ensures
            self.spec_next().wf(),
            self.key() < self.spec_next().key() <= self.key() + 4,
            self.spec_next().year <= self.year + 1,
    {
    }

    /// Every prefix of an `n`-day walk from a well-formed date stays
    /// well-formed and moves the key forward between 1 and 4 per day.
    pub proof fn lemma_plus_days_chain(self, n: nat)
        requires
            self.wf(),
            self.key() + 4 * n <= max_date_key(),
        ensures
            forall|j: nat|
                j <= n ==> (#[trigger] self.spec_plus_days(j)).wf() && self.key() + j
                    <= self.spec_plus_days(j).key() <= self.key() + 4 * j,
        decreases n,
    {
        if n == 0 {
            assert(self.spec_plus_days(0) == self);
        } else {
            self.lemma_plus_days_chain((n - 1) as nat);
            let prev = self.spec_plus_days((n - 1) as nat);
            assert(prev.key() < max_date_key());
            prev.lemma_next_wf();
            assert(self.spec_plus_days(n) == prev.spec_next());
        }
    }

    /// Walking further strictly increases the key: distinct day offsets
    /// give distinct dates.
    pub proof fn lemma_plus_days_mono(self, a: nat, b: nat)
        requires
            self.wf(),
            a < b,
            self.key() + 4 * b <= max_date_key(),
        ensures
            self.spec_plus_days(a).key() < self.spec_plus_days(b).key(),
        decreases b,
    {
        self.lemma_plus_days_chain(b);
        let prev = self.spec_plus_days((b - 1) as nat);
        assert(prev.key() < max_date_key());
        prev.lemma_next_wf();
        assert(self.spec_plus_days(b) == prev.spec_next());
        if a < b - 1 {
            self.lemma_plus_days_mono(a, (b - 1) as nat);
        }
    }

    /// The key determines a well-formed date completely.
    pub proof fn lemma_key_injective(a: Date, b: Date)
        requires
            a.wf(),
            b.wf(),
            a.key() == b.key(),
        ensures
            a == b,
    {
        assert(1 <= a.day <= 31 && 1 <= b.day <= 31);
        assert(a.year == b.year);
        assert(a.month == b.month);
        assert(a.day == b.day);
    }
}

/// The dates from `start` to `finish` inclusive, one per calendar day,
/// walked with `fuel` steps at most. The fuel only serves termination:
/// one more step than the key distance always suffices.
pub open spec fn spec_date_range_fuel(start: Date, finish: Date, fuel: nat) -> Seq<Date>
    decreases fuel,
{
    if fuel == 0 || !start.wf() || start.key() > finish.key() || finish.key() >= max_date_key() {
        Seq::empty()
    } else {
        seq![start] + spec_date_range_fuel(start.spec_next(), finish, (fuel - 1) as nat)
    }
}

/// The dates from `start` to `finish` inclusive; empty when `finish`
/// lies before `start`.
pub open spec fn spec_date_range(start: Date, finish: Date) -> Seq<Date> {
    if start.key() <= finish.key() {
        spec_date_range_fuel(start, finish, (finish.key() - start.key() + 1) as nat)
    } else {
        Seq::empty()
    }
}

/// Any fuel at least the key distance plus one gives the same range.
pub proof fn lemma_date_range_fuel_agree(start: Date, finish: Date, f1: nat, f2: nat)
    requires
        start.key() <= finish.key() ==> f1 >= finish.key() - start.key() + 1 && f2 >= finish.key()
            - start.key() + 1,
    ensures
        spec_date_range_fuel(start, finish, f1) == spec_date_range_fuel(start, finish, f2),
    decreases f1 + f2,
{
    if !start.wf() || start.key() > finish.key() || finish.key() >= max_date_key() {
    } else {
        assert(f1 >= 1 && f2 >= 1);
        start.lemma_next_wf();
        let nxt = start.spec_next();
        lemma_date_range_fuel_agree(nxt, finish, (f1 - 1) as nat, (f2 - 1) as nat);
    }
}

/// One unfolding step of the inclusive date range.
pub proof fn lemma_date_range_unfold(start: Date, finish: Date)
    requires
        start.wf(),
        finish.key() < max_date_key(),
    ensures
        start.key() > finish.key() ==> spec_date_range(start, finish) == Seq::<Date>::empty(),
        start.key() <= finish.key() ==> spec_date_range(start, finish) == seq![start]
            + spec_date_range(start.spec_next(), finish),
{
    if start.key() <= finish.key() {
        let fuel = (finish.key() - start.key() + 1) as nat;
        start.lemma_next_wf();
        let nxt = start.spec_next();
        if nxt.key() <= finish.key() {
            lemma_date_range_fuel_agree(
                nxt,
                finish,
                (fuel - 1) as nat,
                (finish.key() - nxt.key() + 1) as nat,
            );
        } else {
            assert(spec_date_range_fuel(nxt, finish, (fuel - 1) as nat) == Seq::<Date>::empty());
            assert(spec_date_range(nxt, finish) == Seq::<Date>::empty());
        }
    }
}

/// Every date in the range is well-formed, at least `start`, and at
/// most `finish`; the first one is `start`.
pub proof fn lemma_date_range_bounds(start: Date, finish: Date)
    requires
        start.wf(),
        finish.key() < max_date_key(),
    ensures
        forall|t: int|
            0 <= t < spec_date_range(start, finish).len() ==> ((#[trigger] spec_date_range(
                start,
                finish,
            )[t]).wf() && start.key() <= spec_date_range(start, finish)[t].key()
                <= finish.key()),
    decreases
            (if start.key() <= finish.key() {
                finish.key() - start.key() + 1
            } else {
                0
            }),
{
    lemma_date_range_unfold(start, finish);
    if start.key() <= finish.key() {
        start.lemma_next_wf();
        let nxt = start.spec_next();
        lemma_date_range_bounds(nxt, finish);
        let r = spec_date_range(start, finish);
        let rest = spec_date_range(nxt, finish);
        assert forall|t: int| 0 <= t < r.len() implies ((#[trigger] r[t]).wf() && start.key()
            <= r[t].key() <= finish.key()) by {
            if t > 0 {
                assert(r[t] == rest[t - 1]);
            }
        }
    }
}

/// The number of days in the given month of the given year.
pub fn days_in_month(year: u16, month: u8) -> (r: u8)
    ensures
        r as int == spec_days_in_month(year as int, month as int),
{
    if month == 2 {
        if year % 4 == 0 && (year % 100 != 0 || year % 400 == 0) {
            29
        } else {
            28
        }
    } else if month == 4 || month == 6 || month == 9 || month == 11 {
        30
    } else {
        31
    }
}

/// A time of day with second precision.
#[derive(Clone, Copy, Debug, Hash, PartialEq, Eq, Structural)]
pub struct Time {
    pub hour: u8,
    pub minute: u8,
    pub second: u8,
}

impl Time {
    pub open spec fn wf(self) -> bool {
        self.hour < 24 && self.minute < 60 && self.second < 60
    }

    /// The second within the day, for ordering.
    pub open spec fn seconds_of_day(self) -> int {
        3600 * (self.hour as int) + 60 * (self.minute as int) + (self.second as int)
    }

    /// Returns a well-formed time of day, or `None` for an impossible one.
    pub fn new(hour: u8, minute: u8, second: u8) -> (r: Option<Time>)
        ensures
            match r {
                Some(t) => t == (Time { hour, minute, second }) && t.wf(),
                None => !(Time { hour, minute, second }).wf(),
            },
    {
        if hour < 24 && minute < 60 && second < 60 {
            Some(Time { hour, minute, second })
        } else {
            None
        }
    }
}

/// A date together with a time of day.
#[derive(Clone, Copy, Debug, Hash, PartialEq, Eq, Structural)]
pub struct DateTime {
    pub date: Date,
    pub time: Time,
}

impl DateTime {
    pub open spec fn wf(self) -> bool {
        self.date.wf() && self.time.wf()
    }

    /// An order-preserving key over whole timestamps.
    pub open spec fn key(self) -> int {
        86400 * self.date.key() + self.time.seconds_of_day()
    }

    pub open spec fn spec_lt(self, other: DateTime) -> bool {
        self.key() < other.key()
    }

    pub open spec fn spec_le(self, other: DateTime) -> bool {
        self.key() <= other.key()
    }

    pub fn new(date: Date, time: Time) -> (r: DateTime)
        ensures
            r == (DateTime { date, time }),
    {
        DateTime { date, time }
    }

    /// The key as a machine integer; fits easily in `u64`.
    pub fn key_value(self) -> (k: u64)
        ensures
            k as int == self.key(),
    {
        86400 * self.date.key_value() + 3600 * (self.time.hour as u64) + 60 * (self.time.minute
            as u64) + (self.time.second as u64)
    }

    pub fn lt(self, other: DateTime) -> (r: bool)
        ensures
            r == self.spec_lt(other),
    {
        self.key_value() < other.key_value()
    }

    pub fn le(self, other: DateTime) -> (r: bool)
        ensures
            r == self.spec_le(other),
    {
        self.key_value() <= other.key_value()
    }

    /// The key determines a well-formed timestamp completely.
    pub proof fn lemma_key_injective(a: DateTime, b: DateTime)
        requires
            a.wf(),
            b.wf(),
            a.key() == b.key(),
        ensures
            a == b,
    {
        assert(0 <= a.time.seconds_of_day() < 86400);
        assert(0 <= b.time.seconds_of_day() < 86400);
        assert(a.date.key() == b.date.key());
        Date::lemma_key_injective(a.date, b.date);
        assert(a.time.seconds_of_day() == b.time.seconds_of_day());
        assert(a.time.hour == b.time.hour);
        assert(a.time.minute == b.time.minute);
        assert(a.time.second == b.time.second);
    }
}

} // verus!
