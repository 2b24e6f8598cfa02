//! Calendar dates, the scanner that finds a `DD.MM.YYYY` date embedded
//! in a day-section title, and relative weekday resolution.

use vstd::prelude::*;
use vstd::string::*;

verus! {

/// A calendar date, no time of day. Valid dates satisfy
/// [`Date::is_valid`]; the year is limited to four digits, the form in
/// which dates appear in day-section titles.
#[derive(Clone, Copy, PartialEq, Eq, Structural, Hash, Debug)]
pub struct Date {
    pub year: u32,
    pub month: u32,
    pub day: u32,
}

pub open spec fn is_leap_year(y: int) -> bool {
    y % 4 == 0 && (y % 100 != 0 || y % 400 == 0)
}

pub open spec fn days_in_month(y: int, m: int) -> int {
    if m == 2 {
        if is_leap_year(y) {
            29
        } else {
            28
        }
    } else if m == 4 || m == 6 || m == 9 || m == 11 {
        30
    } else {
        31
    }
}

pub open spec fn valid_date(y: int, m: int, d: int) -> bool {
    0 <= y <= 9999 && 1 <= m <= 12 && 1 <= d <= days_in_month(y, m)
}

impl Date {
    pub open spec fn is_valid(self) -> bool {
        valid_date(self.year as int, self.month as int, self.day as int)
    }

    /// Builds a date, rejecting anything that is not a real calendar
    /// day.
    pub fn new(year: u32, month: u32, day: u32) -> (r: Option<Date>)
        ensures
            valid_date(year as int, month as int, day as int) ==> r == Some(
                Date { year, month, day },
            ),
            !valid_date(year as int, month as int, day as int) ==> r is None,
    {
        if year <= 9999 && 1 <= month && month <= 12 && 1 <= day && day <= days_in(year, month) {
            Some(Date { year, month, day })
        } else {
            None
        }
    }
}

/// Executable form of [`days_in_month`].
pub fn days_in(y: u32, m: u32) -> (r: u32)
    requires
        1 <= m <= 12,
    ensures
        r == days_in_month(y as int, m as int),
{
    if m == 2 {
        if y % 4 == 0 && (y % 100 != 0 || y % 400 == 0) {
            29
        } else {
            28
        }
    } else if m == 4 || m == 6 || m == 9 || m == 11 {
        30
    } else {
        31
    }
}

pub open spec fn is_digit_char(c: char) -> bool {
    48 <= (c as u32) <= 57
}

pub open spec fn digit_val(c: char) -> int {
    (c as u32) - 48
}

/// Whether the ten characters of `s` starting at `i` have the shape
/// `DD.MM.YYYY`.
pub open spec fn date_shape_at(s: Seq<char>, i: int) -> bool {
    &&& 0 <= i
    &&& i + 10 <= s.len()
    &&& is_digit_char(s[i])
    &&& is_digit_char(s[i + 1])
    &&& s[i + 2] == '.'
    &&& is_digit_char(s[i + 3])
    &&& is_digit_char(s[i + 4])
    &&& s[i + 5] == '.'
    &&& is_digit_char(s[i + 6])
    &&& is_digit_char(s[i + 7])
    &&& is_digit_char(s[i + 8])
    &&& is_digit_char(s[i + 9])
}

/// The smallest position at or after `i` where a date shape starts, or
/// `-1` when there is none.
pub open spec fn first_shape_from(s: Seq<char>, i: int) -> int
    decreases s.len() - i,
    when 0 <= i
{
    if i + 10 > s.len() {
        -1
    } else if date_shape_at(s, i) {
        i
    } else {
        first_shape_from(s, i + 1)
    }
}

proof fn lemma_first_shape_step(s: Seq<char>, i: int, j: int)
    requires
        0 <= i <= j,
        forall|k: int| i <= k < j ==> !date_shape_at(s, k),
    ensures
        first_shape_from(s, i) == first_shape_from(s, j),
    decreases j - i,
{
    if i < j {
        if i + 10 > s.len() {
            assert(j + 10 > s.len());
            assert(first_shape_from(s, j) == -1);
        } else {
            lemma_first_shape_step(s, i + 1, j);
        }
    }
}

/// The two-digit number at `i`.
pub open spec fn num2_at(s: Seq<char>, i: int) -> int {
    digit_val(s[i]) * 10 + digit_val(s[i + 1])
}

/// The four-digit number at `i`.
pub open spec fn num4_at(s: Seq<char>, i: int) -> int {
    digit_val(s[i]) * 1000 + digit_val(s[i + 1]) * 100 + digit_val(s[i + 2]) * 10 + digit_val(
        s[i + 3],
    )
}

/// The date that scanning `s` yields: at the first position shaped like
/// `DD.MM.YYYY`, the digits are read as day, month and year; the result
/// is that date if it is a real calendar day, and nothing otherwise.
pub open spec fn scan_date_spec(s: Seq<char>) -> Option<Date> {
    let i = first_shape_from(s, 0);
    if i == -1 {
        None
    } else {
        let d = num2_at(s, i);
        let m = num2_at(s, i + 3);
        let y = num4_at(s, i + 6);
        if valid_date(y, m, d) {
            Some(Date { year: y as u32, month: m as u32, day: d as u32 })
        } else {
            None
        }
    }
}

fn is_digit(c: char) -> (r: bool)
    ensures
        r == is_digit_char(c),
{
    let v = c as u32;
    48 <= v && v <= 57
}

fn shape_at(s: &str, i: usize) -> (r: bool)
    requires
        i + 10 <= s@.len(),
        s@.len() <= usize::MAX,
    ensures
        r == date_shape_at(s@, i as int),
{
    is_digit(s.get_char(i)) && is_digit(s.get_char(i + 1)) && s.get_char(i + 2) == '.' && is_digit(
        s.get_char(i + 3),
    ) && is_digit(s.get_char(i + 4)) && s.get_char(i + 5) == '.' && is_digit(s.get_char(i + 6))
        && is_digit(s.get_char(i + 7)) && is_digit(s.get_char(i + 8)) && is_digit(
        s.get_char(i + 9),
    )
}

fn num2(s: &str, i: usize) -> (r: u32)
    requires
        i + 2 <= s@.len(),
        s@.len() <= usize::MAX,
        is_digit_char(s@[i as int]),
        is_digit_char(s@[i + 1]),
    ensures
        r == num2_at(s@, i as int),
        r <= 99,
{
    let a = s.get_char(i) as u32 - 48;
    let b = s.get_char(i + 1) as u32 - 48;
    a * 10 + b
}

fn num4(s: &str, i: usize) -> (r: u32)
    requires
        i + 4 <= s@.len(),
        s@.len() <= usize::MAX,
        is_digit_char(s@[i as int]),
        is_digit_char(s@[i + 1]),
        is_digit_char(s@[i + 2]),
        is_digit_char(s@[i + 3]),
    ensures
        r == num4_at(s@, i as int),
        r <= 9999,
{
    let a = s.get_char(i) as u32 - 48;
    let b = s.get_char(i + 1) as u32 - 48;
    let c = s.get_char(i + 2) as u32 - 48;
    let d = s.get_char(i + 3) as u32 - 48;
    a * 1000 + b * 100 + c * 10 + d
}

/// Scans `s` for the first embedded `DD.MM.YYYY` date, as a day-section
/// title carries it.
pub fn scan_date(s: &str) -> (r: Option<Date>)
    ensures
        r == scan_date_spec(s@),
{
    let n = s.unicode_len();
    if n < 10 {
        proof {
            assert(first_shape_from(s@, 0) == -1);
        }
        return None;
    }
    let mut i: usize = 0;
    while i <= n - 10 && !shape_at(s, i)
        invariant
            n == s@.len(),
            10 <= n,
            0 <= i <= n - 9,
            forall|k: int| 0 <= k < i ==> !date_shape_at(s@, k),
        decreases n - i,
    {
        i = i + 1;
    }
    proof {
        lemma_first_shape_step(s@, 0, i as int);
    }
    if i > n - 10 {
        proof {
            assert(first_shape_from(s@, i as int) == -1);
        }
        None
    } else {
        let d = num2(s, i);
        let m = num2(s, i + 3);
        let y = num4(s, i + 6);
        Date::new(y, m, d)
    }
}

/// A relative or absolute weekday, as a caller of the menu service
/// names one.
#[derive(Clone, Copy, PartialEq, Eq, Structural, Debug)]
pub enum DayOfWeek {
    Today,
    Tomorrow,
    Monday,
    Tuesday,
    Wednesday,
    Thursday,
    Friday,
}

/// Days from Monday for the absolute weekdays; relative days have no
/// fixed index.
pub open spec fn weekday_index(d: DayOfWeek) -> int {
    match d {
        DayOfWeek::Today => 0,
        DayOfWeek::Tomorrow => 1,
        DayOfWeek::Monday => 0,
        DayOfWeek::Tuesday => 1,
        DayOfWeek::Wednesday => 2,
        DayOfWeek::Thursday => 3,
        DayOfWeek::Friday => 4,
    }
}

/// How many days ahead of a day with index `today` (days from Monday,
/// `0..7`) the requested day lies: zero for today, one for tomorrow,
/// and the non-negative distance modulo seven for an absolute weekday.
pub open spec fn days_ahead_spec(d: DayOfWeek, today: int) -> int {
    match d {
        DayOfWeek::Today => 0,
        DayOfWeek::Tomorrow => 1,
        _ => (weekday_index(d) - today + 7) % 7,
    }
}

impl DayOfWeek {
    pub fn days_ahead(self, today_index: u8) -> (r: u8)
        requires
            today_index < 7,
        ensures
            r == days_ahead_spec(self, today_index as int),
            r < 7,
    {
        match self {
            DayOfWeek::Today => 0,
            DayOfWeek::Tomorrow => 1,
            DayOfWeek::Monday => (0 + 7 - today_index) % 7,
            DayOfWeek::Tuesday => (1 + 7 - today_index) % 7,
            DayOfWeek::Wednesday => (2 + 7 - today_index) % 7,
            DayOfWeek::Thursday => (3 + 7 - today_index) % 7,
            DayOfWeek::Friday => (4 + 7 - today_index) % 7,
        }
    }
}

/// The calendar day after `d`.
pub open spec fn next_day_spec(d: Date) -> Date {
    if d.day < days_in_month(d.year as int, d.month as int) {
        Date { year: d.year, month: d.month, day: (d.day + 1) as u32 }
    } else if d.month < 12 {
        Date { year: d.year, month: (d.month + 1) as u32, day: 1 }
    } else {
        Date { year: (d.year + 1) as u32, month: 1, day: 1 }
    }
}

/// `d` moved forward by `k` calendar days.
pub open spec fn add_days_spec(d: Date, k: int) -> Date
    decreases k,
{
    if k <= 0 {
        d
    } else {
        add_days_spec(next_day_spec(d), k - 1)
    }
}

impl Date {
    /// The next calendar day; the last representable day has no
    /// successor.
    pub fn next_day(self) -> (r: Date)
        requires
            self.is_valid(),
            !(self.year == 9999 && self.month == 12 && self.day == 31),
        ensures
            r == next_day_spec(self),
            r.is_valid(),
    {
        if self.day < days_in(self.year, self.month) {
            Date { year: self.year, month: self.month, day: self.day + 1 }
        } else if self.month < 12 {
            Date { year: self.year, month: self.month + 1, day: 1 }
        } else {
            Date { year: self.year + 1, month: 1, day: 1 }
        }
    }

    /// `self` moved forward by `k` days; enough headroom below the last
    /// representable year is required.
    pub fn add_days(self, k: u8) -> (r: Date)
        requires
            self.is_valid(),
            self.year < 9999,
            k < 7,
        ensures
            r == add_days_spec(self, k as int),
            r.is_valid(),
    {
        let mut d = self;
        let mut left = k;
        while left > 0
            invariant
                d.is_valid(),
                add_days_spec(d, left as int) == add_days_spec(self, k as int),
                left <= k < 7,
                self.year < 9999,
                d.year == self.year || (d.year == self.year + 1 && d.month == 1 && d.day + left
                    <= 8),
            decreases left,
        {
            proof {
                assert(add_days_spec(d, left as int) == add_days_spec(
                    next_day_spec(d),
                    left - 1,
                ));
            }
            d = d.next_day();
            left = left - 1;
        }
        d
    }
}

} // verus!
