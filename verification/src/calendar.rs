//! The wall clock, as names of clips and the list of clips show it.

use crate::text::{decimal, digits_value, integer_value, is_digits, law_decimal_reads_back};
use vstd::prelude::*;

verus! {

/// A moment of the local wall clock.
#[derive(Debug, Clone, Copy, PartialEq, Eq, Structural)]
pub struct LocalTime {
    pub year: i32,
    pub month: u32,
    pub day: u32,
    pub hour: u32,
    pub minute: u32,
    pub second: u32,
}

/// Leap years of the Gregorian calendar.
pub open spec fn is_leap(year: int) -> bool {
    year % 4 == 0 && (year % 100 != 0 || year % 400 == 0)
}

pub open spec fn days_in_month(year: int, month: int) -> int {
    if month == 2 {
        if is_leap(year) {
            29
        } else {
            28
        }
    } else if month == 4 || month == 6 || month == 9 || month == 11 {
        30
    } else {
        31
    }
}

/// A number of at least `width` digits, with zeros in front.
pub open spec fn padded(n: nat, width: nat) -> Seq<char> {
    let digits = decimal(n);
    if digits.len() >= width {
        digits
    } else {
        Seq::new((width - digits.len()) as nat, |i: int| '0') + digits
    }
}

/// A year of at least four digits, with a sign outside the range from 0 to 9999.
pub open spec fn year_text(year: int) -> Seq<char> {
    if year < 0 {
        "-"@ + padded((-year) as nat, 4)
    } else if year > 9999 {
        "+"@ + padded(year as nat, 4)
    } else {
        padded(year as nat, 4)
    }
}

impl LocalTime {
    /// A moment that the calendar has, in the years that can be counted.
    pub open spec fn exists_in_calendar(self) -> bool {
        &&& -262143 <= self.year <= 262142
        &&& 1 <= self.month <= 12
        &&& 1 <= self.day <= days_in_month(self.year as int, self.month as int)
        &&& self.hour < 24
        &&& self.minute < 60
        &&& self.second < 60
    }

    /// Such as `2026-09-21_00-14-37`.
    pub open spec fn stamp_text(self) -> Seq<char> {
        year_text(self.year as int) + "-"@ + padded(self.month as nat, 2) + "-"@ + padded(
            self.day as nat,
            2,
        ) + "_"@ + padded(self.hour as nat, 2) + "-"@ + padded(self.minute as nat, 2) + "-"@
            + padded(self.second as nat, 2)
    }

    /// Such as `21.09.2026  00:14`.
    pub open spec fn listing_text(self) -> Seq<char> {
        padded(self.day as nat, 2) + "."@ + padded(self.month as nat, 2) + "."@ + year_text(
            self.year as int,
        ) + "  "@ + padded(self.hour as nat, 2) + ":"@ + padded(self.minute as nat, 2)
    }

    /// The moment as a clip is named after it; nothing for a moment that the
    /// calendar does not have.
    pub fn stamp(&self) -> (stamp: Option<String>)
        ensures
            stamp is Some <==> self.exists_in_calendar(),
            stamp matches Some(s) ==> s@ == self.stamp_text(),
    {
        format_moment(*self, "%Y-%m-%d_%H-%M-%S")
    }

    /// The moment as the list of clips shows it; nothing for a moment that the
    /// calendar does not have.
    pub fn listing(&self) -> (listing: Option<String>)
        ensures
            listing is Some <==> self.exists_in_calendar(),
            listing matches Some(s) ==> s@ == self.listing_text(),
    {
        format_moment(*self, "%d.%m.%Y  %H:%M")
    }
}

/// Formats a moment of the wall clock.
///
/// Calls `NaiveDateTime::format` of chrono and turns its result into text; the
/// moment is built with `NaiveDate::from_ymd_opt` and `and_hms_opt`, which give
/// nothing for a date or a time of day that does not exist. Claimed of the
/// layouts in use: `%Y` is the year padded with zeros to four digits, signed
/// outside the range from 0 to 9999, and `%m`, `%d`, `%H`, `%M` and `%S` are two
/// digits, the rest of a layout standing for itself.
#[verifier::external_body]
fn format_moment(at: LocalTime, layout: &str) -> (text: Option<String>)
    requires
        layout@ == "%Y-%m-%d_%H-%M-%S"@ || layout@ == "%d.%m.%Y  %H:%M"@,
    ensures
        text is Some <==> at.exists_in_calendar(),
        layout@ == "%Y-%m-%d_%H-%M-%S"@ ==> (text matches Some(t) ==> t@ == at.stamp_text()),
        layout@ == "%d.%m.%Y  %H:%M"@ ==> (text matches Some(t) ==> t@ == at.listing_text()),
{
    let date = chrono::NaiveDate::from_ymd_opt(at.year, at.month, at.day)?;
    let moment = date.and_hms_opt(at.hour, at.minute, at.second)?;
    Some(moment.format(layout).to_string())
}

// ----------------------------------------------------------------- the laws

/// A year has 365 days, and a leap year one more, in February. Every fourth year
/// is one, but of the years that end a century only every fourth.
pub proof fn law_year_has_its_days(year: int)
    ensures
        days_in_month(year, 1) + days_in_month(year, 2) + days_in_month(year, 3) + days_in_month(
            year,
            4,
        ) + days_in_month(year, 5) + days_in_month(year, 6) + days_in_month(year, 7)
            + days_in_month(year, 8) + days_in_month(year, 9) + days_in_month(year, 10)
            + days_in_month(year, 11) + days_in_month(year, 12) == (if is_leap(year) {
            366int
        } else {
            365int
        }),
        days_in_month(year, 2) == 29 <==> is_leap(year),
        is_leap(year) ==> year % 4 == 0,
        year % 4 == 0 && year % 100 != 0 ==> is_leap(year),
        year % 100 == 0 ==> (is_leap(year) <==> year % 400 == 0),
        is_leap(year + 400) == is_leap(year),
{
}

/// The months of thirty days.
pub proof fn law_month_has_its_days(year: int, month: int)
    requires
        1 <= month <= 12,
        month != 2,
    ensures
        days_in_month(year, month) == (if month < 8 {
            30 + month % 2
        } else {
            31 - month % 2
        }),
{
}

/// Zeros in front change no number, and fill it up to its width.
pub proof fn law_padded_number_reads_back(n: nat, width: nat)
    ensures
        is_digits(padded(n, width)),
        digits_value(padded(n, width)) == n,
        padded(n, width).len() >= width,
        padded(n, width).len() > width ==> padded(n, width) == decimal(n),
{
    law_decimal_reads_back(n);
    let digits = decimal(n);
    if digits.len() < width {
        let zeros = Seq::new((width - digits.len()) as nat, |i: int| '0');
        lemma_zeros_in_front(zeros, digits);
        assert forall|i: int| 0 <= i < padded(n, width).len() implies '0' <= #[trigger] padded(
            n,
            width,
        )[i] <= '9' by {
            if i >= zeros.len() {
                assert(padded(n, width)[i] == digits[i - zeros.len()]);
            }
        }
    }
}

proof fn lemma_zeros_in_front(zeros: Seq<char>, digits: Seq<char>)
    requires
        forall|i: int| 0 <= i < zeros.len() ==> zeros[i] == '0',
    ensures
        digits_value(zeros + digits) == digits_value(digits),
    decreases digits.len(), zeros.len(),
{
    if digits.len() > 0 {
        assert((zeros + digits).drop_last() =~= zeros + digits.drop_last());
        lemma_zeros_in_front(zeros, digits.drop_last());
    } else if zeros.len() > 0 {
        let head = zeros.drop_last();
        let none = Seq::<char>::empty();
        assert(zeros + digits =~= zeros);
        assert forall|i: int| 0 <= i < head.len() implies head[i] == '0' by {
            assert(head[i] == zeros[i]);
        }
        lemma_zeros_in_front(head, none);
        assert(head + none =~= head);
        assert(zeros[zeros.len() - 1] == '0');
    } else {
        assert(zeros + digits =~= digits);
    }
}

/// Numbers of two digits take two characters.
proof fn lemma_two_digits(n: nat)
    requires
        n < 100,
    ensures
        padded(n, 2).len() == 2,
        padded(n, 2)[0] as int == 48 + n / 10,
        padded(n, 2)[1] as int == 48 + n % 10,
{
    reveal_with_fuel(decimal, 3);
}

proof fn lemma_four_digits(n: nat)
    requires
        n < 10000,
    ensures
        padded(n, 4).len() == 4,
        year_text(n as int) == padded(n, 4),
{
    reveal_with_fuel(decimal, 5);
}

/// A stamp names its moment: year, month, day, hour, minute and second stand
/// there in this order, each at its place, and read back as what they are.
pub proof fn law_stamp_tells_the_moment(at: LocalTime)
    requires
        0 <= at.year <= 9999,
        at.exists_in_calendar(),
    ensures
        ({
            let s = at.stamp_text();
            &&& s.len() == 19
            &&& digits_value(s.subrange(0, 4)) == at.year
            &&& s[4] == '-'
            &&& digits_value(s.subrange(5, 7)) == at.month
            &&& s[7] == '-'
            &&& digits_value(s.subrange(8, 10)) == at.day
            &&& s[10] == '_'
            &&& digits_value(s.subrange(11, 13)) == at.hour
            &&& s[13] == '-'
            &&& digits_value(s.subrange(14, 16)) == at.minute
            &&& s[16] == '-'
            &&& digits_value(s.subrange(17, 19)) == at.second
        }),
{
    reveal_strlit("-");
    reveal_strlit("_");
    let s = at.stamp_text();
    lemma_four_digits(at.year as nat);
    lemma_two_digits(at.month as nat);
    lemma_two_digits(at.day as nat);
    lemma_two_digits(at.hour as nat);
    lemma_two_digits(at.minute as nat);
    lemma_two_digits(at.second as nat);
    law_padded_number_reads_back(at.year as nat, 4);
    law_padded_number_reads_back(at.month as nat, 2);
    law_padded_number_reads_back(at.day as nat, 2);
    law_padded_number_reads_back(at.hour as nat, 2);
    law_padded_number_reads_back(at.minute as nat, 2);
    law_padded_number_reads_back(at.second as nat, 2);
    assert(s.subrange(0, 4) =~= padded(at.year as nat, 4));
    assert(s.subrange(5, 7) =~= padded(at.month as nat, 2));
    assert(s.subrange(8, 10) =~= padded(at.day as nat, 2));
    assert(s.subrange(11, 13) =~= padded(at.hour as nat, 2));
    assert(s.subrange(14, 16) =~= padded(at.minute as nat, 2));
    assert(s.subrange(17, 19) =~= padded(at.second as nat, 2));
}

/// Clips of different seconds have different stamps.
pub proof fn law_stamps_tell_moments_apart(a: LocalTime, b: LocalTime)
    requires
        0 <= a.year <= 9999,
        0 <= b.year <= 9999,
        a.exists_in_calendar(),
        b.exists_in_calendar(),
        a.stamp_text() == b.stamp_text(),
    ensures
        a == b,
{
    law_stamp_tells_the_moment(a);
    law_stamp_tells_the_moment(b);
}

/// The list shows the day before the month and the time of day without seconds,
/// each number at its place.
pub proof fn law_listing_tells_the_minute(at: LocalTime)
    requires
        0 <= at.year <= 9999,
        at.exists_in_calendar(),
    ensures
        ({
            let s = at.listing_text();
            &&& s.len() == 17
            &&& digits_value(s.subrange(0, 2)) == at.day
            &&& s[2] == '.'
            &&& digits_value(s.subrange(3, 5)) == at.month
            &&& s[5] == '.'
            &&& digits_value(s.subrange(6, 10)) == at.year
            &&& s[10] == ' ' && s[11] == ' '
            &&& digits_value(s.subrange(12, 14)) == at.hour
            &&& s[14] == ':'
            &&& digits_value(s.subrange(15, 17)) == at.minute
        }),
{
    reveal_strlit(".");
    reveal_strlit("  ");
    reveal_strlit(":");
    let s = at.listing_text();
    lemma_four_digits(at.year as nat);
    lemma_two_digits(at.month as nat);
    lemma_two_digits(at.day as nat);
    lemma_two_digits(at.hour as nat);
    lemma_two_digits(at.minute as nat);
    law_padded_number_reads_back(at.year as nat, 4);
    law_padded_number_reads_back(at.month as nat, 2);
    law_padded_number_reads_back(at.day as nat, 2);
    law_padded_number_reads_back(at.hour as nat, 2);
    law_padded_number_reads_back(at.minute as nat, 2);
    assert(s.subrange(0, 2) =~= padded(at.day as nat, 2));
    assert(s.subrange(3, 5) =~= padded(at.month as nat, 2));
    assert(s.subrange(6, 10) =~= padded(at.year as nat, 4));
    assert(s.subrange(12, 14) =~= padded(at.hour as nat, 2));
    assert(s.subrange(15, 17) =~= padded(at.minute as nat, 2));
}

/// A year outside the range of four digits shows its sign and reads back.
pub proof fn law_far_years_have_a_sign(year: int)
    ensures
        integer_value(year_text(year)) == Some(year),
        year < 0 ==> year_text(year)[0] == '-',
        year > 9999 ==> year_text(year)[0] == '+',
        0 <= year <= 9999 ==> year_text(year).len() == 4,
{
    reveal_strlit("-");
    reveal_strlit("+");
    if year < 0 {
        law_padded_number_reads_back((-year) as nat, 4);
        assert(year_text(year).drop_first() =~= padded((-year) as nat, 4));
    } else {
        law_padded_number_reads_back(year as nat, 4);
        if year > 9999 {
            assert(year_text(year).drop_first() =~= padded(year as nat, 4));
        } else {
            lemma_four_digits(year as nat);
            assert('0' <= padded(year as nat, 4)[0] <= '9');
        }
    }
}

/// The calendar has every second of every day of its months, and no other.
pub proof fn law_calendar_has_every_second(at: LocalTime)
    ensures
        at.exists_in_calendar() ==> at.hour < 24 && at.minute < 60 && at.second < 60 && 1 <= at.day
            <= 31 && 1 <= at.month <= 12,
        0 <= at.year <= 9999 && 1 <= at.month <= 12 && 1 <= at.day <= 28 && at.hour < 24
            && at.minute < 60 && at.second < 60 ==> at.exists_in_calendar(),
        at.exists_in_calendar() && at.month == 2 && at.day == 29 ==> is_leap(at.year as int),
        at.exists_in_calendar() && at.month == 2 ==> at.day <= 29,
        at.exists_in_calendar() && (at.month == 4 || at.month == 6 || at.month == 9 || at.month
            == 11) ==> at.day <= 30,
{
}

} // verus!
