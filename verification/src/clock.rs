//! Instants, as a person reads them.
use crate::order::bytes_before;
use crate::text::{decimal, decimal_text, digit, numeral, pad_text, padded};
use vstd::prelude::*;
use vstd::utf8::{encode_utf8, is_ascii_chars};

verus! {

/// Whether a year has a twenty-ninth of February.
pub open spec fn is_leap(year: int) -> bool {
    year % 4 == 0 && (year % 100 != 0 || year % 400 == 0)
}

/// How many days a month has.
pub open spec fn month_days(year: int, month: int) -> int {
    if month == 2 {
        if is_leap(year) {
            29
        } else {
            28
        }
    } else if month == 4 || month == 6 || month == 9 || month == 11 {
        30
    } else {
        31
    }
}

/// How many days a year has.
pub open spec fn year_days(year: int) -> int {
    if is_leap(year) {
        366
    } else {
        365
    }
}

/// How many days lie between the start of 1970 and the start of a year.
pub open spec fn days_to_year(year: int) -> int
    decreases year - 1970,
{
    if year <= 1970 {
        0
    } else {
        days_to_year(year - 1) + year_days(year - 1)
    }
}

/// How many days of a year lie before a month.
pub open spec fn days_to_month(year: int, month: int) -> int
    decreases month,
{
    if month <= 1 {
        0
    } else {
        days_to_month(year, month - 1) + month_days(year, month - 1)
    }
}

/// A day of the calendar.
pub struct Date {
    pub year: int,
    pub month: int,
    pub day: int,
}

impl Date {
    /// There is such a day, and it is not before 1970.
    pub open spec fn wf(self) -> bool {
        &&& self.year >= 1970
        &&& 1 <= self.month <= 12
        &&& 1 <= self.day <= month_days(self.year, self.month)
    }

    /// How many days lie between the first of January 1970 and this day.
    pub open spec fn number(self) -> int {
        days_to_year(self.year) + days_to_month(self.year, self.month) + self.day - 1
    }
}

/// A number in at least so many digits.
pub open spec fn in_digits(n: nat, width: nat) -> Seq<char> {
    padded(decimal(n), '0', width)
}

/// An instant: the day, and the seconds since that day began.
pub open spec fn instant_text(date: Date, seconds: nat) -> Seq<char> {
    in_digits(date.year as nat, 4) + "-"@ + in_digits(date.month as nat, 2) + "-"@ + in_digits(
        date.day as nat,
        2,
    ) + "T"@ + in_digits(seconds / 3600, 2) + ":"@ + in_digits(seconds % 3600 / 60, 2) + ":"@
        + in_digits(seconds % 60, 2) + "Z"@
}

/// Whether `text` is the timestamp of the instant that lies `epoch` seconds after
/// the start of 1970.
pub open spec fn is_stamp(text: Seq<char>, epoch: u64) -> bool {
    exists|date: Date|
        {
            &&& date.wf()
            &&& date.number() == epoch / 86_400
            &&& text == #[trigger] instant_text(date, (epoch % 86_400) as nat)
        }
}

/// The days before a year, counted by the leap years that come before it.
proof fn lemma_days_to_year(year: int)
    requires
        year >= 1970,
    ensures
        days_to_year(year) == 365 * year + (year + 3) / 4 - (year + 99) / 100 + (year + 399) / 400
            - 719_528,
    decreases year,
{
    if year > 1970 {
        lemma_days_to_year(year - 1);
        let y = year - 1;
        assert((y + 4) / 4 == (y + 3) / 4 + if y % 4 == 0 {
            1int
        } else {
            0int
        });
        assert((y + 100) / 100 == (y + 99) / 100 + if y % 100 == 0 {
            1int
        } else {
            0int
        });
        assert((y + 400) / 400 == (y + 399) / 400 + if y % 400 == 0 {
            1int
        } else {
            0int
        });
        assert(y % 100 == 0 ==> y % 4 == 0);
        assert(y % 400 == 0 ==> y % 100 == 0);
    }
}

/// The days before a month.
proof fn lemma_days_to_month(year: int, month: int)
    requires
        1 <= month <= 12,
    ensures
        ({
            let leap: int = if is_leap(year) {
                1
            } else {
                0
            };
            days_to_month(year, month) == if month == 1 {
                0
            } else if month == 2 {
                31
            } else if month == 3 {
                59 + leap
            } else if month == 4 {
                90 + leap
            } else if month == 5 {
                120 + leap
            } else if month == 6 {
                151 + leap
            } else if month == 7 {
                181 + leap
            } else if month == 8 {
                212 + leap
            } else if month == 9 {
                243 + leap
            } else if month == 10 {
                273 + leap
            } else if month == 11 {
                304 + leap
            } else {
                334 + leap
            }
        }),
    decreases month,
{
    if month > 1 {
        lemma_days_to_month(year, month - 1);
    }
}

/// The date that many days after the first of January 1970. Years are counted
/// from March, so that the leap day is the last of its year, and in cycles of
/// four hundred, after which the calendar repeats.
pub fn date_of(days: u64) -> (date: (u64, u64, u64))
    requires
        days <= u64::MAX / 86_400,
    ensures
        (Date { year: date.0 as int, month: date.1 as int, day: date.2 as int }).wf(),
        (Date { year: date.0 as int, month: date.1 as int, day: date.2 as int }).number() == days,
{
    let z = days + 719_468;
    let era = z / 146_097;
    let doe = z % 146_097;
    let yoe = (doe - doe / 1460 + doe / 36_524 - doe / 146_096) / 365;
    proof {
        lemma_year_of_era(doe as int);
    }
    let y = yoe + era * 400;
    let doy = doe - (365 * yoe + yoe / 4 - yoe / 100);
    let mp = (5 * doy + 2) / 153;
    let d = doy - (153 * mp + 2) / 5 + 1;
    let m: u64 = if mp < 10 {
        mp + 3
    } else {
        mp - 9
    };
    let year: u64 = if m <= 2 {
        y + 1
    } else {
        y
    };
    proof {
        lemma_date(days as int, era as int, doe as int, yoe as int, doy as int);
    }
    (year, m, d)
}

/// The year of a cycle in which a day of the cycle lies.
proof fn lemma_year_of_era(doe: int)
    requires
        0 <= doe < 146_097,
    ensures
        ({
            let yoe = (doe - doe / 1460 + doe / 36_524 - doe / 146_096) / 365;
            &&& 0 <= yoe <= 399
            &&& 0 <= doe - (365 * yoe + yoe / 4 - yoe / 100)
            &&& doe - (365 * yoe + yoe / 4 - yoe / 100) < 365 + (if is_leap(yoe + 1) {
                1int
            } else {
                0int
            })
        }),
{
    let c = doe / 36_524;
    let l = doe / 146_096;
    let q = doe / 1460;
    let yoe = (doe - q + c - l) / 365;
    assert(c == 0 || c == 1 || c == 2 || c == 3 || c == 4);
}

/// Where the day lies in the calendar.
proof fn lemma_date(days: int, era: int, doe: int, yoe: int, doy: int)
    requires
        days >= 0,
        era == (days + 719_468) / 146_097,
        doe == (days + 719_468) % 146_097,
        0 <= yoe <= 399,
        doy == doe - (365 * yoe + yoe / 4 - yoe / 100),
        0 <= doy < 365 + (if is_leap(yoe + 1) {
            1int
        } else {
            0int
        }),
    ensures
        ({
            let mp = (5 * doy + 2) / 153;
            let m = if mp < 10 {
                mp + 3
            } else {
                mp - 9
            };
            let year = yoe + era * 400 + if m <= 2 {
                1int
            } else {
                0int
            };
            let date = Date { year, month: m, day: doy - (153 * mp + 2) / 5 + 1 };
            date.wf() && date.number() == days
        }),
{
    let mp = (5 * doy + 2) / 153;
    let y = yoe + era * 400;
    lemma_cycles(yoe, era);
    lemma_march(y);
    assert(days == marches(y) + doy - 719_468);
    assert(y >= 1969) by {
        if y <= 1968 {
            assert(marches(y) <= 719_468 - 366);
        }
    }
    lemma_months(doy);
    if mp < 10 {
        assert(y >= 1970) by {
            if y == 1969 {
                assert(marches(1969) + 306 == 719_468);
            }
        }
        lemma_days_to_year(y);
        lemma_days_to_month(y, mp + 3);
    } else {
        lemma_days_to_year(y + 1);
        lemma_days_to_month(y + 1, mp - 9);
    }
}

/// How many days lie between the first of March of the year nought and that of a
/// later year.
spec fn marches(year: int) -> int {
    365 * year + year / 4 - year / 100 + year / 400
}

/// The calendar repeats after four hundred years.
proof fn lemma_cycles(yoe: int, era: int)
    requires
        0 <= yoe <= 399,
        era >= 0,
    ensures
        marches(yoe + era * 400) == 146_097 * era + 365 * yoe + yoe / 4 - yoe / 100,
        is_leap(yoe + era * 400 + 1) == is_leap(yoe + 1),
{
    let (y, z) = (yoe + era * 400, yoe + 1);
    vstd::arithmetic::div_mod::lemma_hoist_over_denominator(yoe, era * 100, 4);
    vstd::arithmetic::div_mod::lemma_hoist_over_denominator(yoe, era * 4, 100);
    vstd::arithmetic::div_mod::lemma_hoist_over_denominator(yoe, era, 400);
    vstd::arithmetic::div_mod::lemma_mod_multiples_vanish(era * 100, z, 4);
    vstd::arithmetic::div_mod::lemma_mod_multiples_vanish(era * 4, z, 100);
    vstd::arithmetic::div_mod::lemma_mod_multiples_vanish(era, z, 400);
    assert(era * 100 * 4 == era * 400 && 4 * (era * 100) == era * 400);
    assert(era * 4 * 100 == era * 400 && 100 * (era * 4) == era * 400);
    assert(y / 4 == yoe / 4 + era * 100);
    assert(y / 100 == yoe / 100 + era * 4);
    assert(y / 400 == era);
    assert((y + 1) % 4 == z % 4);
    assert((y + 1) % 100 == z % 100);
    assert((y + 1) % 400 == z % 400);
}

/// Years from January and years from March.
proof fn lemma_march(y: int)
    requires
        y >= 0,
    ensures
        365 * (y + 1) + (y + 4) / 4 - (y + 100) / 100 + (y + 400) / 400 == marches(y) + 366,
        365 * y + (y + 3) / 4 - (y + 99) / 100 + (y + 399) / 400 + (if is_leap(y) {
            1int
        } else {
            0int
        }) == marches(y) + 1,
{
    assert((y + 4) / 4 == y / 4 + 1);
    assert((y + 100) / 100 == y / 100 + 1);
    assert((y + 400) / 400 == y / 400 + 1);
    assert((y + 3) / 4 == y / 4 + if y % 4 == 0 {
        0int
    } else {
        1int
    });
    assert((y + 99) / 100 == y / 100 + if y % 100 == 0 {
        0int
    } else {
        1int
    });
    assert((y + 399) / 400 == y / 400 + if y % 400 == 0 {
        0int
    } else {
        1int
    });
    assert(y % 100 == 0 ==> y % 4 == 0);
    assert(y % 400 == 0 ==> y % 100 == 0);
}

/// The day of a month and the month, of a day of a year that starts in March.
proof fn lemma_months(doy: int)
    requires
        0 <= doy <= 365,
    ensures
        ({
            let mp = (5 * doy + 2) / 153;
            let first = (153 * mp + 2) / 5;
            &&& 0 <= mp <= 11
            &&& first <= doy
            &&& mp == 0 ==> first == 0 && doy < 31
            &&& mp == 1 ==> first == 31 && doy < 61
            &&& mp == 2 ==> first == 61 && doy < 92
            &&& mp == 3 ==> first == 92 && doy < 122
            &&& mp == 4 ==> first == 122 && doy < 153
            &&& mp == 5 ==> first == 153 && doy < 184
            &&& mp == 6 ==> first == 184 && doy < 214
            &&& mp == 7 ==> first == 214 && doy < 245
            &&& mp == 8 ==> first == 245 && doy < 275
            &&& mp == 9 ==> first == 275 && doy < 306
            &&& mp == 10 ==> first == 306 && doy < 337
            &&& mp == 11 ==> first == 337
        }),
{
}

/// Writes a number in at least so many digits.
fn push_digits(out: &mut String, n: u64, width: usize)
    ensures
        final(out)@ == old(out)@ + in_digits(n as nat, width as nat),
{
    out.push_str(&pad_text(&decimal_text(n as u128), '0', width));
}

/// Epoch seconds to an ISO-8601 UTC timestamp.
///
/// Logs get read by a person deciding whether a box is healthy, and epoch
/// seconds are not readable.
pub fn format_utc(epoch: u64) -> (text: String)
    ensures
        is_stamp(text@, epoch),
{
    let seconds = epoch % 86_400;
    let (year, month, day) = date_of(epoch / 86_400);
    let mut text = String::new();
    push_digits(&mut text, year, 4);
    text.push_str("-");
    push_digits(&mut text, month, 2);
    text.push_str("-");
    push_digits(&mut text, day, 2);
    text.push_str("T");
    push_digits(&mut text, seconds / 3600, 2);
    text.push_str(":");
    push_digits(&mut text, (seconds % 3600) / 60, 2);
    text.push_str(":");
    push_digits(&mut text, seconds % 60, 2);
    text.push_str("Z");
    proof {
        let date = Date { year: year as int, month: month as int, day: day as int };
        assert(text@ =~= instant_text(date, seconds as nat));
    }
    text
}

/// Every day has one date: two dates that lie equally far from the first of
/// January 1970 are the same.
pub proof fn a_day_has_one_date(a: Date, b: Date)
    requires
        a.wf(),
        b.wf(),
        a.number() == b.number(),
    ensures
        a.year == b.year,
        a.month == b.month,
        a.day == b.day,
{
    if a.year < b.year {
        lemma_years_do_not_overlap(a, b);
    } else if b.year < a.year {
        lemma_years_do_not_overlap(b, a);
    }
    lemma_days_to_month(a.year, a.month);
    lemma_days_to_month(b.year, b.month);
}

proof fn lemma_years_do_not_overlap(a: Date, b: Date)
    requires
        a.wf(),
        b.wf(),
        a.year < b.year,
    ensures
        a.number() < b.number(),
    decreases b.year,
{
    lemma_days_to_month(a.year, a.month);
    lemma_days_to_month(b.year, b.month);
    lemma_years_add_up(a.year, b.year);
}

proof fn lemma_years_add_up(first: int, second: int)
    requires
        1970 <= first < second,
    ensures
        days_to_year(first) + year_days(first) <= days_to_year(second),
    decreases second - first,
{
    if second > first + 1 {
        lemma_years_add_up(first, second - 1);
    }
}

/// The first second of the year 10000, after which a year takes five digits.
pub const YEAR_10000: u64 = 253_402_300_800;

proof fn lemma_two_digits(n: nat)
    requires
        n < 100,
    ensures
        in_digits(n, 2) == seq![digit(n / 10), digit(n % 10)],
{
    reveal_with_fuel(numeral, 3);
    if n < 10 {
        assert(decimal(n) =~= seq![digit(n)]);
    } else {
        assert(decimal(n) =~= seq![digit(n / 10), digit(n % 10)]);
    }
    assert(in_digits(n, 2) =~= seq![digit(n / 10), digit(n % 10)]);
}

proof fn lemma_four_digits(n: nat)
    requires
        1000 <= n < 10_000,
    ensures
        in_digits(n, 4) == seq![
            digit(n / 1000),
            digit(n / 100 % 10),
            digit(n / 10 % 10),
            digit(n % 10),
        ],
{
    reveal_with_fuel(numeral, 5);
    assert(n / 10 / 10 == n / 100);
    assert(n / 100 / 10 == n / 1000);
    assert(decimal(n) =~= seq![
        digit(n / 1000),
        digit(n / 100 % 10),
        digit(n / 10 % 10),
        digit(n % 10),
    ]);
}

/// The twenty characters of an instant before the year 10000.
pub open spec fn twenty(date: Date, seconds: nat) -> Seq<char> {
    written(
        date.year as nat,
        date.month as nat,
        date.day as nat,
        seconds / 3600,
        seconds % 3600 / 60,
        seconds % 60,
    )
}

/// A year in four digits, and everything else in two.
pub open spec fn written(
    year: nat,
    month: nat,
    day: nat,
    hour: nat,
    minute: nat,
    second: nat,
) -> Seq<char> {
    seq![
        digit(year / 1000),
        digit(year / 100 % 10),
        digit(year / 10 % 10),
        digit(year % 10),
        '-',
        digit(month / 10),
        digit(month % 10),
        '-',
        digit(day / 10),
        digit(day % 10),
        'T',
        digit(hour / 10),
        digit(hour % 10),
        ':',
        digit(minute / 10),
        digit(minute % 10),
        ':',
        digit(second / 10),
        digit(second % 10),
        'Z',
    ]
}

proof fn lemma_twenty(date: Date, seconds: nat)
    requires
        date.wf(),
        date.year < 10_000,
        seconds < 86_400,
    ensures
        instant_text(date, seconds) == twenty(date, seconds),
        is_ascii_chars(twenty(date, seconds)),
{
    lemma_four_digits(date.year as nat);
    lemma_two_digits(date.month as nat);
    lemma_two_digits(date.day as nat);
    lemma_two_digits(seconds / 3600);
    lemma_two_digits(seconds % 3600 / 60);
    lemma_two_digits(seconds % 60);
    reveal_strlit("-");
    reveal_strlit("T");
    reveal_strlit(":");
    reveal_strlit("Z");
    assert(instant_text(date, seconds) =~= twenty(date, seconds));
}

proof fn lemma_before_the_year_10000(date: Date)
    requires
        date.wf(),
        date.number() < 2_932_897,
    ensures
        date.year < 10_000,
{
    if date.year >= 10_000 {
        lemma_days_to_month(date.year, date.month);
        lemma_days_to_year(9_999);
        lemma_years_add_up(9_999, date.year);
    }
}

/// Before the year 10000 every instant has one timestamp, of twenty ASCII
/// characters: the year in four digits, and the month, the day, the hour, the
/// minute and the second in two.
pub proof fn timestamps_have_one_shape(epoch: u64, x: Seq<char>, y: Seq<char>)
    requires
        epoch < YEAR_10000,
        is_stamp(x, epoch),
        is_stamp(y, epoch),
    ensures
        x == y,
        x.len() == 20,
        is_ascii_chars(x),
        exists|date: Date|
            date.wf() && date.number() == epoch / 86_400 && x == #[trigger] twenty(
                date,
                (epoch % 86_400) as nat,
            ),
{
    let seconds = (epoch % 86_400) as nat;
    let a = choose|date: Date|
        date.wf() && date.number() == epoch / 86_400 && x == #[trigger] instant_text(
            date,
            seconds,
        );
    let b = choose|date: Date|
        date.wf() && date.number() == epoch / 86_400 && y == #[trigger] instant_text(
            date,
            seconds,
        );
    a_day_has_one_date(a, b);
    lemma_before_the_year_10000(a);
    lemma_twenty(a, seconds);
}

/// Of two dates the one that comes first has the smaller year, or the smaller
/// month of the same year, or the smaller day of the same month.
proof fn lemma_dates_in_order(a: Date, b: Date)
    requires
        a.wf(),
        b.wf(),
        a.number() < b.number(),
    ensures
        a.year < b.year || (a.year == b.year && (a.month < b.month || (a.month == b.month && a.day
            < b.day))),
{
    if b.year < a.year {
        lemma_years_do_not_overlap(b, a);
    }
    lemma_days_to_month(a.year, a.month);
    lemma_days_to_month(b.year, b.month);
}

proof fn lemma_first_difference(a: Seq<u8>, b: Seq<u8>, k: int)
    requires
        0 <= k < a.len(),
        k < b.len(),
        forall|i: int| 0 <= i < k ==> a[i] == b[i],
        a[k] < b[k],
    ensures
        bytes_before(a, b),
    decreases k,
{
    if k > 0 {
        assert(a[0] == b[0]);
        assert forall|i: int| 0 <= i < k - 1 implies a.drop_first()[i] == b.drop_first()[i] by {
            assert(a[i + 1] == b[i + 1]);
        }
        lemma_first_difference(a.drop_first(), b.drop_first(), k - 1);
    }
}

/// Whether `x` and `y` are the same up to `k`, where `x` is smaller.
spec fn smaller_at(x: Seq<char>, y: Seq<char>, k: int) -> bool {
    &&& 0 <= k < x.len()
    &&& k < y.len()
    &&& forall|i: int| 0 <= i < k ==> x[i] == y[i]
    &&& x[k] < y[k]
}

spec fn two(n: nat) -> Seq<char> {
    seq![digit(n / 10), digit(n % 10)]
}

spec fn four(n: nat) -> Seq<char> {
    seq![digit(n / 1000), digit(n / 100 % 10), digit(n / 10 % 10), digit(n % 10)]
}

proof fn lemma_digits_in_order(a: nat, b: nat)
    requires
        a < b < 10,
    ensures
        digit(a) < digit(b),
{
}

/// Of two numbers the one that is smaller has no more tens, and fewer ones where
/// it has as many.
proof fn lemma_tens(m: nat, n: nat)
    requires
        m <= n,
    ensures
        m / 10 <= n / 10,
        m < n && m / 10 == n / 10 ==> m % 10 < n % 10,
        m % 10 < 10,
        n % 10 < 10,
{
}

proof fn lemma_tens_of_tens(n: nat)
    ensures
        n / 10 / 10 == n / 100,
        n / 100 / 10 == n / 1000,
{
}

proof fn lemma_two_in_order(m: nat, n: nat) -> (k: int)
    requires
        m < n < 100,
    ensures
        smaller_at(two(m), two(n), k),
{
    lemma_tens(m, n);
    if m / 10 != n / 10 {
        lemma_digits_in_order(m / 10, n / 10);
        0
    } else {
        lemma_digits_in_order(m % 10, n % 10);
        1
    }
}

proof fn lemma_four_in_order(m: nat, n: nat) -> (k: int)
    requires
        m < n < 10_000,
    ensures
        smaller_at(four(m), four(n), k),
{
    lemma_tens_of_tens(m);
    lemma_tens_of_tens(n);
    lemma_tens(m, n);
    lemma_tens(m / 10, n / 10);
    lemma_tens(m / 100, n / 100);
    if m / 1000 != n / 1000 {
        lemma_digits_in_order(m / 1000, n / 1000);
        0
    } else if m / 100 != n / 100 {
        lemma_digits_in_order(m / 100 % 10, n / 100 % 10);
        1
    } else if m / 10 != n / 10 {
        lemma_digits_in_order(m / 10 % 10, n / 10 % 10);
        2
    } else {
        lemma_digits_in_order(m % 10, n % 10);
        3
    }
}

/// A part that is smaller makes the whole smaller, where nothing before it
/// differs.
proof fn lemma_part_decides(x: Seq<char>, y: Seq<char>, p: Seq<char>, q: Seq<char>, at: int, k: int)
    requires
        0 <= at,
        at + p.len() <= x.len(),
        at + q.len() <= y.len(),
        x.subrange(at, at + p.len()) == p,
        y.subrange(at, at + q.len()) == q,
        forall|i: int| 0 <= i < at ==> x[i] == y[i],
        smaller_at(p, q, k),
    ensures
        smaller_at(x, y, at + k),
{
    assert(x[at + k] == p[k]);
    assert(y[at + k] == q[k]);
    assert forall|i: int| 0 <= i < at + k implies x[i] == y[i] by {
        if i >= at {
            assert(x[i] == p[i - at]);
            assert(y[i] == q[i - at]);
        }
    }
}

/// Two timestamps differ first in the largest part in which the instants differ.
proof fn lemma_earlier_dates(a: Date, s: nat, b: Date, t: nat) -> (k: int)
    requires
        0 <= a.year < 10_000,
        0 <= b.year < 10_000,
        0 <= a.month < 100,
        0 <= b.month < 100,
        0 <= a.day < 100,
        0 <= b.day < 100,
        a.year < b.year || (a.year == b.year && (a.month < b.month || (a.month == b.month && a.day
            < b.day))),
    ensures
        smaller_at(twenty(a, s), twenty(b, t), k),
{
    let (x, y) = (twenty(a, s), twenty(b, t));
    if a.year != b.year {
        let (m, n) = (a.year as nat, b.year as nat);
        let k = lemma_four_in_order(m, n);
        assert(x.subrange(0, 4) =~= four(m));
        assert(y.subrange(0, 4) =~= four(n));
        lemma_part_decides(x, y, four(m), four(n), 0, k);
        k
    } else if a.month != b.month {
        let (m, n) = (a.month as nat, b.month as nat);
        let k = lemma_two_in_order(m, n);
        assert(x.subrange(5, 7) =~= two(m));
        assert(y.subrange(5, 7) =~= two(n));
        lemma_part_decides(x, y, two(m), two(n), 5, k);
        5 + k
    } else {
        let (m, n) = (a.day as nat, b.day as nat);
        let k = lemma_two_in_order(m, n);
        assert(x.subrange(8, 10) =~= two(m));
        assert(y.subrange(8, 10) =~= two(n));
        lemma_part_decides(x, y, two(m), two(n), 8, k);
        8 + k
    }
}

proof fn lemma_earlier_times(date: Date, h: nat, m: nat, s: nat, i: nat, n: nat, t: nat) -> (k: int)
    requires
        h < i < 100 || (h == i && (m < n < 100 || (m == n && s < t < 100))),
    ensures
        smaller_at(
            written(date.year as nat, date.month as nat, date.day as nat, h, m, s),
            written(date.year as nat, date.month as nat, date.day as nat, i, n, t),
            k,
        ),
{
    let x = written(date.year as nat, date.month as nat, date.day as nat, h, m, s);
    let y = written(date.year as nat, date.month as nat, date.day as nat, i, n, t);
    if h != i {
        let k = lemma_two_in_order(h, i);
        assert(x.subrange(11, 13) =~= two(h));
        assert(y.subrange(11, 13) =~= two(i));
        lemma_part_decides(x, y, two(h), two(i), 11, k);
        11 + k
    } else if m != n {
        let k = lemma_two_in_order(m, n);
        assert(x.subrange(14, 16) =~= two(m));
        assert(y.subrange(14, 16) =~= two(n));
        lemma_part_decides(x, y, two(m), two(n), 14, k);
        14 + k
    } else {
        let k = lemma_two_in_order(s, t);
        assert(x.subrange(17, 19) =~= two(s));
        assert(y.subrange(17, 19) =~= two(t));
        lemma_part_decides(x, y, two(s), two(t), 17, k);
        17 + k
    }
}

proof fn lemma_earlier_seconds(date: Date, s: nat, t: nat) -> (k: int)
    requires
        s < t < 86_400,
    ensures
        smaller_at(twenty(date, s), twenty(date, t), k),
{
    let (h, m, x) = lemma_time_of_day(s);
    let (i, n, y) = lemma_time_of_day(t);
    lemma_larger_part_decides(h, m, x, i, n, y);
    lemma_earlier_times(date, h, m, x, i, n, y)
}

proof fn lemma_larger_part_decides(h: nat, m: nat, x: nat, i: nat, n: nat, y: nat)
    requires
        m < 60,
        x < 60,
        n < 60,
        y < 60,
        h * 3600 + m * 60 + x < i * 3600 + n * 60 + y,
    ensures
        h < i || (h == i && (m < n || (m == n && x < y))),
{
}

/// Before the year 10000, earlier instants have smaller timestamps, as strings
/// are ordered: byte by byte.
pub proof fn timestamps_keep_the_order_of_instants(a: u64, b: u64, x: Seq<char>, y: Seq<char>)
    requires
        a < b < YEAR_10000,
        is_stamp(x, a),
        is_stamp(y, b),
    ensures
        bytes_before(encode_utf8(x), encode_utf8(y)),
{
    let (s, t) = ((a % 86_400) as nat, (b % 86_400) as nat);
    let first = choose|date: Date|
        date.wf() && date.number() == a / 86_400 && x == #[trigger] instant_text(date, s);
    let second = choose|date: Date|
        date.wf() && date.number() == b / 86_400 && y == #[trigger] instant_text(date, t);
    lemma_before_the_year_10000(first);
    lemma_before_the_year_10000(second);
    lemma_twenty(first, s);
    lemma_twenty(second, t);
    let k = if first.number() == second.number() {
        a_day_has_one_date(first, second);
        lemma_earlier_seconds(first, s, t)
    } else {
        lemma_dates_in_order(first, second);
        lemma_earlier_dates(first, s, second, t)
    };
    vstd::utf8::is_ascii_chars_encode_utf8(x);
    vstd::utf8::is_ascii_chars_encode_utf8(y);
    assert(smaller_at(x, y, k));
    lemma_first_difference(encode_utf8(x), encode_utf8(y), k);
}

/// How many days a month has, month by month.
pub open spec fn last_day(year: int, month: int) -> int {
    if month == 1 || month == 3 || month == 5 || month == 7 || month == 8 || month == 10 || month
        == 12 {
        31
    } else if month != 2 {
        30
    } else if (year % 4 == 0 && year % 100 != 0) || year % 400 == 0 {
        29
    } else {
        28
    }
}

/// The calendar starts on the first of January 1970 and runs on day by day: to
/// the next day of the month, after the last one to the first of the next month,
/// and after December to the first of January of the next year.
pub proof fn the_calendar_runs_on(date: Date)
    requires
        date.year >= 1970,
        1 <= date.month <= 12,
    ensures
        date.wf() <==> 1 <= date.day <= last_day(date.year, date.month),
        (Date { year: 1970, month: 1, day: 1 }).number() == 0,
        (Date { day: date.day + 1, ..date }).number() == date.number() + 1,
        date.day == last_day(date.year, date.month) && date.month < 12 ==> (Date {
            month: date.month + 1,
            day: 1,
            ..date
        }).number() == date.number() + 1,
        date.day == 31 && date.month == 12 ==> (Date {
            year: date.year + 1,
            month: 1,
            day: 1,
        }).number() == date.number() + 1,
{
    lemma_days_to_month(date.year, date.month);
    if date.month < 12 {
        lemma_days_to_month(date.year, date.month + 1);
    }
    lemma_days_to_month(date.year + 1, 1);
}

/// What a figure stands for.
pub open spec fn figure(c: char) -> int {
    c as int - '0' as int
}

/// The number in two figures of a text.
pub open spec fn two_figures(x: Seq<char>, at: int) -> int {
    10 * figure(x[at]) + figure(x[at + 1])
}

/// The number in four figures of a text.
pub open spec fn four_figures(x: Seq<char>, at: int) -> int {
    1000 * figure(x[at]) + 100 * figure(x[at + 1]) + 10 * figure(x[at + 2]) + figure(x[at + 3])
}

/// What a timestamp says is read back from it: the day that its figures name, and
/// the hours, minutes and seconds, are the instant that it was made for.
pub proof fn timestamps_are_read_back(epoch: u64, x: Seq<char>)
    requires
        epoch < 253_402_300_800,
        is_stamp(x, epoch),
    ensures
        x.len() == 20,
        x[4] == '-' && x[7] == '-' && x[10] == 'T' && x[13] == ':' && x[16] == ':' && x[19] == 'Z',
        ({
            let date = Date {
                year: four_figures(x, 0),
                month: two_figures(x, 5),
                day: two_figures(x, 8),
            };
            &&& date.wf()
            &&& 0 <= two_figures(x, 11) < 24
            &&& 0 <= two_figures(x, 14) < 60
            &&& 0 <= two_figures(x, 17) < 60
            &&& date.number() * 86_400 + two_figures(x, 11) * 3600 + two_figures(x, 14) * 60
                + two_figures(x, 17) == epoch
        }),
{
    let (date, h, i, t) = lemma_stamp_parts(epoch, x);
    lemma_figures_written(date.year as nat, date.month as nat, date.day as nat, h, i, t);
}

/// What a timestamp was written from.
proof fn lemma_stamp_parts(epoch: u64, x: Seq<char>) -> (parts: (Date, nat, nat, nat))
    requires
        epoch < 253_402_300_800,
        is_stamp(x, epoch),
    ensures
        ({
            let (date, h, i, t) = parts;
            &&& date.wf()
            &&& date.year < 10_000
            &&& h < 24 && i < 60 && t < 60
            &&& date.number() * 86_400 + h * 3600 + i * 60 + t == epoch
            &&& x == written(date.year as nat, date.month as nat, date.day as nat, h, i, t)
        }),
{
    let s = (epoch % 86_400) as nat;
    let date = choose|date: Date|
        date.wf() && date.number() == epoch / 86_400 && x == #[trigger] instant_text(date, s);
    lemma_before_the_year_10000(date);
    lemma_twenty(date, s);
    let (h, i, t) = lemma_time_of_day(s);
    (date, h, i, t)
}

proof fn lemma_time_of_day(s: nat) -> (time: (nat, nat, nat))
    requires
        s < 86_400,
    ensures
        time.0 == s / 3600 && time.1 == s % 3600 / 60 && time.2 == s % 60,
        time.0 < 24 && time.1 < 60 && time.2 < 60,
        time.0 * 3600 + time.1 * 60 + time.2 == s,
{
    (s / 3600, s % 3600 / 60, s % 60)
}

proof fn lemma_figures_written(y: nat, m: nat, d: nat, h: nat, i: nat, t: nat)
    requires
        y < 10_000,
        m < 100,
        d < 100,
        h < 100,
        i < 100,
        t < 100,
    ensures
        ({
            let x = written(y, m, d, h, i, t);
            &&& x.len() == 20
            &&& x[4] == '-' && x[7] == '-' && x[10] == 'T' && x[13] == ':' && x[16] == ':'
            &&& x[19] == 'Z'
            &&& four_figures(x, 0) == y
            &&& two_figures(x, 5) == m
            &&& two_figures(x, 8) == d
            &&& two_figures(x, 11) == h
            &&& two_figures(x, 14) == i
            &&& two_figures(x, 17) == t
        }),
{
    lemma_figures_of_four(y);
    lemma_figures_of_two(m);
    lemma_figures_of_two(d);
    lemma_figures_of_two(h);
    lemma_figures_of_two(i);
    lemma_figures_of_two(t);
}

proof fn lemma_figures_of_two(n: nat)
    requires
        n < 100,
    ensures
        10 * figure(digit(n / 10)) + figure(digit(n % 10)) == n,
{
}

proof fn lemma_figures_of_four(n: nat)
    requires
        n < 10_000,
    ensures
        1000 * figure(digit(n / 1000)) + 100 * figure(digit(n / 100 % 10)) + 10 * figure(
            digit(n / 10 % 10),
        ) + figure(digit(n % 10)) == n,
{
    lemma_tens_of_tens(n);
    let (a, b, c) = (n / 10, n / 100, n / 1000);
    assert(n == 10 * a + n % 10);
    assert(a == 10 * b + a % 10);
    assert(b == 10 * c + b % 10);
}

} // verus!
