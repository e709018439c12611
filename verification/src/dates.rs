//! Days and dates of the Gregorian calendar.

use crate::model;
use crate::model::CharSet;
use crate::text;
use crate::text_lemmas::{lemma_split_first, lemma_split_none};
use vstd::prelude::*;

verus! {

// ---- Numbers of a fixed width ----

pub open spec fn zeros(n: int) -> Seq<char>
    decreases n,
{
    if n <= 0 {
        seq![]
    } else {
        zeros(n - 1).push('0')
    }
}

/// A number in at least `width` digits.
pub open spec fn zero_padded(n: nat, width: int) -> Seq<char> {
    zeros(width - model::decimal(n).len()) + model::decimal(n)
}

/// A whole number in at least `width` characters, its sign included.
pub open spec fn sign_padded(n: int, width: int) -> Seq<char> {
    if n < 0 {
        "-"@ + zero_padded((-n) as nat, width - 1)
    } else {
        zero_padded(n as nat, width)
    }
}

pub fn zero_pad(n: u64, width: usize) -> (r: String)
    ensures
        r@ == zero_padded(n as nat, width as int),
{
    let digits = text::decimal(n);
    let len = text::chars_of(digits.as_str()).len();
    let mut r = String::new();
    let mut i: usize = len;
    proof {
        assert(r@ =~= zeros(0));
    }
    while i < width
        invariant
            len <= i,
            i <= width || len > width,
            len > width ==> i == len,
            r@ == zeros(i - len),
        decreases width - i,
    {
        r.push('0');
        i += 1;
    }
    proof {
        if len > width {
            assert(zeros(width - len) =~= zeros(0));
        }
    }
    r.append(digits.as_str());
    r
}

fn sign_pad(n: i64, width: usize) -> (r: String)
    requires
        width >= 1,
        n > i64::MIN,
    ensures
        r@ == sign_padded(n as int, width as int),
{
    if n < 0 {
        text::cat2("-", zero_pad((-n) as u64, width - 1).as_str())
    } else {
        zero_pad(n as u64, width)
    }
}

// ---- From a day to its date ----

pub open spec fn leap(y: int) -> bool {
    (y % 4 == 0 && y % 100 != 0) || y % 400 == 0
}

pub open spec fn year_len(y: int) -> int {
    if leap(y) {
        366
    } else {
        365
    }
}

/// The length of a month; January is 0.
pub open spec fn month_len(y: int, m: int) -> int {
    if m == 1 {
        if leap(y) {
            29
        } else {
            28
        }
    } else if m == 3 || m == 5 || m == 8 || m == 10 {
        30
    } else {
        31
    }
}

/// The year of a day that is counted from the start of year `y`, and the day in that year.
pub open spec fn year_at(y: int, day: int) -> (int, int)
    decreases day,
{
    if day < year_len(y) {
        (y, day)
    } else {
        year_at(y + 1, day - year_len(y))
    }
}

/// The month of a day that is counted from the start of month `m`, and the day in that month.
pub open spec fn month_at(y: int, m: int, day: int) -> (int, int)
    decreases 12 - m,
{
    if m >= 12 {
        (0, day)
    } else if day < month_len(y, m) {
        (m, day)
    } else {
        month_at(y, m + 1, day - month_len(y, m))
    }
}

/// Year, month and day of a day that is counted from 1970-01-01, each from 1.
pub open spec fn date_at(day: int) -> (int, int, int) {
    let (y, rest) = year_at(1970, day);
    let (m, d) = month_at(y, 0, rest);
    (y, m + 1, d + 1)
}

/// The date of a day, written `yyyy-mm-dd`.
pub open spec fn date_text(day: int) -> Seq<char> {
    let (y, m, d) = date_at(day);
    sign_padded(y, 4) + "-"@ + sign_padded(m, 2) + "-"@ + sign_padded(d, 2)
}

pub fn is_leap(y: i64) -> (b: bool)
    ensures
        b == leap(y as int),
{
    (y % 4 == 0 && y % 100 != 0) || y % 400 == 0
}

fn days_in_month(y: i64, m: i64) -> (r: i64)
    ensures
        r == month_len(y as int, m as int),
        28 <= r <= 31,
{
    if m == 1 {
        if is_leap(y) {
            29
        } else {
            28
        }
    } else if m == 3 || m == 5 || m == 8 || m == 10 {
        30
    } else {
        31
    }
}

/// The date of a day that is counted from 1970-01-01.
pub fn epoch_to_date(days: i64) -> (r: String)
    ensures
        r@ == date_text(days as int),
{
    let mut y: i64 = 1970;
    let mut d: i64 = days;
    let mut len: i64 = 365;
    proof {
        assert(!leap(1970));
    }
    while d >= len
        invariant
            y >= 1970,
            len == year_len(y as int),
            d <= days,
            d == days || d >= 0,
            y == 1970 || 365 * (y - 1970) + d <= days,
            year_at(1970, days as int) == year_at(y as int, d as int),
        decreases d,
    {
        d = d - len;
        y = y + 1;
        len = if is_leap(y) {
            366
        } else {
            365
        };
    }
    let ghost rest = d as int;
    let mut m: i64 = 0;
    let mut found = false;
    while m < 12 && !found
        invariant
            1970 <= y,
            0 <= m <= 12,
            d < 366,
            found ==> m < 12 && d < month_len(y as int, m as int),
            m == 0 || d >= 0 || found,
            month_at(y as int, 0, rest) == month_at(y as int, m as int, d as int),
        decreases 12 - m + if found { 0int } else { 1int },
    {
        let len = days_in_month(y, m);
        if d < len {
            found = true;
        } else {
            d = d - len;
            m = m + 1;
        }
    }
    if !found {
        m = 0;
    }
    text::cat5(
        sign_pad(y, 4).as_str(),
        "-",
        sign_pad(m + 1, 2).as_str(),
        "-",
        sign_pad(d + 1, 2).as_str(),
    )
}

// ---- From a date to its day ----

/// The days of so many years, leap days included.
#[verifier::opaque]
pub open spec fn days_of_years(n: int) -> int {
    365 * n + n / 4 - n / 100 + n / 400
}

/// The years by which a month lies before the March that its year is counted from.
pub open spec fn years_back(m: int) -> int {
    if m <= 14 {
        (14 - m) / 12
    } else {
        -((m - 14) / 12)
    }
}

/// The day of a date, counted from 1970-01-01, by way of Julian day numbers.
pub open spec fn day_number(y: int, m: int, d: int) -> int {
    let y2 = y + 4800 - years_back(m);
    let m2 = m + 12 * years_back(m) - 3;
    d + (153 * m2 + 2) / 5 + days_of_years(y2) - 32045 - 2440588
}

/// The sums on the way to the day of a date stay within 64 bits.
pub open spec fn in_range(y: int, m: int, d: int) -> bool {
    let y2 = y + 4800 - years_back(m);
    let m2 = m + 12 * years_back(m) - 3;
    d + (153 * m2 + 2) / 5 + 365 * y2 + y2 / 4 <= i64::MAX
}

/// The year, the month and the day that a text names.
pub open spec fn parts_of(date: Seq<char>) -> Option<(int, int, int)> {
    let parts = model::split(date, CharSet::Only('-'));
    if parts.len() != 3 {
        None
    } else {
        match (
            model::parse_unsigned(parts[0], i64::MAX as nat),
            model::parse_unsigned(parts[1], u32::MAX as nat),
            model::parse_unsigned(parts[2], u32::MAX as nat),
        ) {
            (Some(y), Some(m), Some(d)) => Some((y as int, m as int, d as int)),
            _ => None,
        }
    }
}

/// The day that a text names.
pub open spec fn day_in(date: Seq<char>) -> Option<int> {
    match parts_of(date) {
        Some((y, m, d)) => Some(day_number(y, m, d)),
        None => None,
    }
}

/// The day that a text names, if it names one, can be counted.
pub open spec fn countable(date: Seq<char>) -> bool {
    parts_of(date) matches Some((y, m, d)) ==> in_range(y, m, d)
}

/// The day that a text names, counted from 1970-01-01.
pub fn date_to_days(date: &str) -> (r: Option<i64>)
    requires
        countable(date@),
    ensures
        match r {
            Some(n) => day_in(date@) == Some(n as int),
            None => day_in(date@) is None,
        },
{
    let parts = text::split(date, CharSet::Only('-'));
    proof {
        assert(model::texts(parts@).len() == parts@.len());
    }
    if parts.len() != 3 {
        return None;
    }
    proof {
        assert(model::texts(parts@)[0] == parts@[0]@);
        assert(model::texts(parts@)[1] == parts@[1]@);
        assert(model::texts(parts@)[2] == parts@[2]@);
    }
    let y: i64 = match text::parse_unsigned(parts[0].as_str(), i64::MAX as u64) {
        Some(n) => n as i64,
        None => {
            return None;
        },
    };
    let m: i64 = match text::parse_unsigned(parts[1].as_str(), u32::MAX as u64) {
        Some(n) => n as i64,
        None => {
            return None;
        },
    };
    let d: i64 = match text::parse_unsigned(parts[2].as_str(), u32::MAX as u64) {
        Some(n) => n as i64,
        None => {
            return None;
        },
    };
    let a: i64 = if m <= 14 {
        (14 - m) / 12
    } else {
        -((m - 14) / 12)
    };
    let y2: i64 = y + 4800 - a;
    let m2: i64 = m + 12 * a - 3;
    proof {
        reveal(days_of_years);
    }
    Some(
        d + (153 * m2 + 2) / 5 + 365 * y2 + y2 / 4 - y2 / 100 + y2 / 400 - 32045 - 2440588,
    )
}

/// A date lies more than `days` before another.
pub open spec fn older(date: Seq<char>, today: Seq<char>, days: int) -> bool {
    match (day_in(date), day_in(today)) {
        (Some(d), Some(t)) => t - d > days,
        _ => false,
    }
}

/// Whether a date lies more than `days` before another; a text that is no date does not.
pub fn is_older_than(date: &str, today: &str, days: i64) -> (b: bool)
    requires
        countable(date@),
        countable(today@),
    ensures
        b == older(date@, today@, days as int),
{
    let d = match date_to_days(date) {
        Some(d) => d,
        None => {
            return false;
        },
    };
    let t = match date_to_days(today) {
        Some(t) => t,
        None => {
            return false;
        },
    };
    (t as i128) - (d as i128) > days as i128
}

// ---- The clock ----

/// The time of day of a moment in seconds, written `HH:MM:SS`.
pub open spec fn time_text(secs: int) -> Seq<char> {
    zero_padded((secs % 86400 / 3600) as nat, 2) + ":"@ + zero_padded((secs % 3600 / 60) as nat, 2)
        + ":"@ + zero_padded((secs % 60) as nat, 2)
}

/// The date and the time of day of a moment, in seconds from 1970-01-01.
pub fn chrono_now(secs: u64) -> (r: (String, String))
    ensures
        r.0@ == date_text(secs as int / 86400),
        r.1@ == time_text(secs as int),
{
    let date = epoch_to_date((secs / 86400) as i64);
    let time = text::cat5(
        zero_pad(secs % 86400 / 3600, 2).as_str(),
        ":",
        zero_pad(secs % 3600 / 60, 2).as_str(),
        ":",
        zero_pad(secs % 60, 2).as_str(),
    );
    (date, time)
}

// ---- Laws ----

proof fn lemma_years(n: int)
    requires
        n >= 0,
    ensures
        days_of_years(n + 1) == days_of_years(n) + year_len(n + 1),
{
    reveal(days_of_years);
}

proof fn lemma_leap_shift(y: int)
    requires
        y >= 0,
    ensures
        leap(y + 4800) == leap(y),
{
}

proof fn lemma_year_step(y: int)
    requires
        y >= 0,
    ensures
        day_number(y + 1, 1, 1) == day_number(y, 1, 1) + year_len(y),
{
    lemma_years(y + 4799);
    lemma_leap_shift(y);
}

proof fn lemma_month_step(y: int, m: int)
    requires
        y >= 0,
        1 <= m <= 11,
    ensures
        day_number(y, m + 1, 1) == day_number(y, m, 1) + month_len(y, m - 1),
{
    if m == 2 {
        lemma_years(y + 4799);
        lemma_leap_shift(y);
        assert(day_number(y, 2, 1) == 338 + days_of_years(y + 4799) - 32045 - 2440588);
        assert(day_number(y, 3, 1) == 1 + days_of_years(y + 4800) - 32045 - 2440588);
    } else if m == 1 {
        assert(day_number(y, 1, 1) == 307 + days_of_years(y + 4799) - 32045 - 2440588);
        assert(day_number(y, 2, 1) == 338 + days_of_years(y + 4799) - 32045 - 2440588);
    } else {
        let n = days_of_years(y + 4800) - 32045 - 2440588;
        assert(day_number(y, m, 1) == 1 + (153 * (m - 3) + 2) / 5 + n);
        assert(day_number(y, m + 1, 1) == 1 + (153 * (m - 2) + 2) / 5 + n);
    }
}

proof fn lemma_year_at(y: int, day: int)
    requires
        y >= 0,
        day >= 0,
    ensures
        ({
            let (y2, rest) = year_at(y, day);
            &&& y2 >= y
            &&& 0 <= rest < year_len(y2)
            &&& day_number(y2, 1, 1) + rest == day_number(y, 1, 1) + day
            &&& 365 * (y2 - y) <= day
        }),
    decreases day,
{
    if day >= year_len(y) {
        lemma_year_step(y);
        lemma_year_at(y + 1, day - year_len(y));
    }
}

/// The days from the start of a month to the end of its year.
pub open spec fn rest_of_year(y: int, m: int) -> int
    decreases 12 - m,
{
    if m >= 12 {
        0
    } else {
        month_len(y, m) + rest_of_year(y, m + 1)
    }
}

proof fn lemma_month_at(y: int, m: int, day: int)
    requires
        y >= 0,
        0 <= m < 12,
        0 <= day < rest_of_year(y, m),
    ensures
        ({
            let (m2, rest) = month_at(y, m, day);
            &&& m <= m2 < 12
            &&& 0 <= rest < month_len(y, m2)
            &&& day_number(y, m2 + 1, 1) + rest == day_number(y, m + 1, 1) + day
        }),
    decreases 12 - m,
{
    if day >= month_len(y, m) {
        if m + 1 < 12 {
            lemma_month_step(y, m + 1);
            lemma_month_at(y, m + 1, day - month_len(y, m));
        }
    }
}

/// The date of a day is a date of the calendar, and its day is the one that it was made from.
pub proof fn law_dates_count_days(day: int)
    requires
        day >= 0,
    ensures
        ({
            let (y, m, d) = date_at(day);
            &&& y >= 1970
            &&& 1 <= m <= 12
            &&& 1 <= d <= month_len(y, m - 1)
            &&& day_number(y, m, d) == day
            &&& 365 * (y - 1970) <= day
        }),
{
    lemma_year_at(1970, day);
    let (y, rest) = year_at(1970, day);
    assert(rest_of_year(y, 0) == year_len(y)) by {
        reveal_with_fuel(rest_of_year, 13);
    }
    lemma_month_at(y, 0, rest);
    assert(day_number(1970, 1, 1) == 0) by {
        reveal(days_of_years);
    }
}

proof fn lemma_digit(d: nat)
    requires
        d < 10,
    ensures
        model::digit(model::digit_char(d)),
        model::digit_value(model::digit_char(d)) == d,
        model::digit_char(d) != '-',
        model::digit_char(d) != '+',
{
}

pub proof fn lemma_decimal(n: nat)
    ensures
        model::decimal(n).len() >= 1,
        model::all_digits(model::decimal(n)),
        model::digits_value(model::decimal(n)) == n,
    decreases n,
{
    let s = model::decimal(n);
    if n < 10 {
        lemma_digit(n);
        assert(s.drop_last() =~= seq![]);
        assert(model::digits_value(s.drop_last()) == 0);
    } else {
        lemma_decimal(n / 10);
        lemma_digit(n % 10);
        assert(s.drop_last() =~= model::decimal(n / 10));
    }
}

proof fn lemma_zeros(k: int, t: Seq<char>)
    requires
        model::all_digits(t),
    ensures
        model::all_digits(zeros(k) + t),
        model::digits_value(zeros(k) + t) == model::digits_value(t),
    decreases t.len(), k,
{
    let s = zeros(k) + t;
    lemma_digit(0);
    if t.len() > 0 {
        let u = t.drop_last();
        assert(model::all_digits(u));
        lemma_zeros(k, u);
        assert(s.drop_last() =~= zeros(k) + u);
        assert forall|i: int| 0 <= i < s.len() implies model::digit(#[trigger] s[i]) by {
            if i < s.len() - 1 {
                assert(s[i] == (zeros(k) + u)[i]);
            } else {
                assert(s[i] == t.last());
            }
        }
    } else if k > 0 {
        lemma_zeros(k - 1, t);
        assert(s.drop_last() =~= zeros(k - 1) + t);
        assert(s.last() == '0');
        assert forall|i: int| 0 <= i < s.len() implies model::digit(#[trigger] s[i]) by {
            if i < s.len() - 1 {
                assert(s[i] == (zeros(k - 1) + t)[i]);
            }
        }
    } else {
        assert(s =~= t);
    }
}

/// A padded number is read back.
pub proof fn law_padded_numbers_are_read_back(n: nat, width: int, max: nat)
    requires
        n <= max,
    ensures
        model::parse_unsigned(zero_padded(n, width), max) == Some(n),
        forall|i: int|
            0 <= i < zero_padded(n, width).len() ==> #[trigger] zero_padded(n, width)[i] != '-',
{
    let s = zero_padded(n, width);
    lemma_decimal(n);
    lemma_zeros(width - model::decimal(n).len(), model::decimal(n));
    assert(model::digit(s[0]));
    assert forall|i: int| 0 <= i < s.len() implies #[trigger] s[i] != '-' by {
        assert(model::digit(s[i]));
    }
}

proof fn lemma_written_date(y: nat, m: nat, d: nat)
    requires
        y <= i64::MAX,
        m <= u32::MAX,
        d <= u32::MAX,
    ensures
        parts_of(
            zero_padded(y, 4) + "-"@ + zero_padded(m, 2) + "-"@ + zero_padded(d, 2),
        ) == Some((y as int, m as int, d as int)),
{
    let a = zero_padded(y, 4);
    let b = zero_padded(m, 2);
    let c = zero_padded(d, 2);
    law_padded_numbers_are_read_back(y, 4, i64::MAX as nat);
    law_padded_numbers_are_read_back(m, 2, u32::MAX as nat);
    law_padded_numbers_are_read_back(d, 2, u32::MAX as nat);
    reveal_strlit("-");
    assert("-"@ =~= seq!['-']);
    let rest = b + seq!['-'] + c;
    let whole = a + "-"@ + b + "-"@ + c;
    assert(whole =~= a + seq!['-'] + rest);
    lemma_split_first(a, '-', rest);
    lemma_split_first(b, '-', c);
    lemma_split_none(c, '-');
    let parts = model::split(whole, CharSet::Only('-'));
    assert(parts =~= seq![a, b, c]);
}

/// The date of a day, as the clock can give it, is read back as that day.
pub proof fn law_dates_are_read_back(day: int)
    requires
        0 <= day <= u64::MAX / 86400,
    ensures
        day_in(date_text(day)) == Some(day),
        countable(date_text(day)),
{
    law_dates_count_days(day);
    let (y, m, d) = date_at(day);
    assert(month_len(y, m - 1) <= 31);
    lemma_written_date(y as nat, m as nat, d as nat);
}

} // verus!
