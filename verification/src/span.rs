//! Spans of time, as they are written.
use crate::text::{decimal, decimal_text, digits_value, pad_text, padded, push_decimal};
use vstd::prelude::*;

verus! {

/// The unit in which a span of so many nanoseconds is written: how many
/// nanoseconds it has, how many digits that makes behind the point, and its
/// name. The largest of which there is at least one.
pub open spec fn span_unit(nanos: nat) -> (nat, nat, Seq<char>) {
    if nanos >= 1_000_000_000 {
        (1_000_000_000, 9, "s"@)
    } else if nanos >= 1_000_000 {
        (1_000_000, 6, "ms"@)
    } else if nanos >= 1_000 {
        (1_000, 3, "µs"@)
    } else {
        (1, 0, "ns"@)
    }
}

/// Digits without the zeros at their end.
pub open spec fn without_zeros(digits: Seq<char>) -> Seq<char>
    decreases digits.len(),
{
    if digits.len() > 0 && digits.last() == '0' {
        without_zeros(digits.drop_last())
    } else {
        digits
    }
}

/// A span of time: whole units, then what is left over behind a point as far as
/// there is any, then the unit.
pub open spec fn span_text(nanos: nat) -> Seq<char> {
    let (unit, places, name) = span_unit(nanos);
    let rest = without_zeros(padded(decimal(nanos % unit), '0', places));
    if nanos % unit == 0 {
        decimal(nanos / unit) + name
    } else {
        decimal(nanos / unit) + "."@ + rest + name
    }
}

/// Digits without the zeros at their end.
fn trim_zeros(digits: &str) -> (trimmed: String)
    ensures
        trimmed@ == without_zeros(digits@),
{
    let chars = crate::text::chars_of(digits);
    let mut end: usize = chars.len();
    assert(chars@.take(end as int) =~= chars@);
    while end > 0 && chars[end - 1] == '0'
        invariant
            end <= chars@.len(),
            without_zeros(chars@) == without_zeros(chars@.take(end as int)),
        decreases end,
    {
        assert(chars@.take(end as int).drop_last() =~= chars@.take(end - 1));
        end -= 1;
    }
    let trimmed = crate::text::text_of(&chars, 0, end);
    assert(trimmed@ =~= chars@.take(end as int));
    trimmed
}

/// Writes a span of time.
pub fn push_span(out: &mut String, nanos: u128)
    ensures
        final(out)@ == old(out)@ + span_text(nanos as nat),
{
    let (unit, places, name): (u128, usize, &str) = if nanos >= 1_000_000_000 {
        (1_000_000_000, 9, "s")
    } else if nanos >= 1_000_000 {
        (1_000_000, 6, "ms")
    } else if nanos >= 1_000 {
        (1_000, 3, "µs")
    } else {
        (1, 0, "ns")
    };
    let rest = nanos % unit;
    push_decimal(out, nanos / unit);
    if rest != 0 {
        out.push_str(".");
        out.push_str(&trim_zeros(&pad_text(&decimal_text(rest), '0', places)));
    }
    out.push_str(name);
    assert(out@ =~= old(out)@ + span_text(nanos as nat));
}

/// Ten to the power `n`.
pub open spec fn power_of_ten(n: nat) -> nat
    decreases n,
{
    if n == 0 {
        1
    } else {
        10 * power_of_ten((n - 1) as nat)
    }
}

proof fn lemma_without_zeros(digits: Seq<char>)
    requires
        digits.len() > 0 ==> digits_value(digits, 10) > 0,
    ensures
        ({
            let kept = without_zeros(digits);
            &&& kept.len() <= digits.len()
            &&& digits.len() > 0 ==> kept.len() > 0
            &&& kept.len() > 0 ==> kept.last() != '0'
            &&& digits_value(kept, 10) * power_of_ten((digits.len() - kept.len()) as nat)
                == digits_value(digits, 10)
        }),
    decreases digits.len(),
{
    reveal_with_fuel(digits_value, 2);
    reveal_with_fuel(power_of_ten, 2);
    if digits.len() > 0 && digits.last() == '0' {
        let rest = digits.drop_last();
        assert(digits_value(digits, 10) == digits_value(rest, 10) * 10);
        lemma_without_zeros(rest);
        let (value, n) = (
            digits_value(without_zeros(digits), 10),
            (rest.len() - without_zeros(digits).len()) as nat,
        );
        assert(power_of_ten(n + 1) == 10 * power_of_ten(n));
        assert(value * (10 * power_of_ten(n)) == value * power_of_ten(n) * 10)
            by (nonlinear_arith);
    } else {
        assert(digits_value(digits, 10) * 1 == digits_value(digits, 10));
    }
}

proof fn lemma_padding_keeps_the_value(text: Seq<char>, width: nat)
    ensures
        digits_value(padded(text, '0', width), 10) == digits_value(text, 10),
    decreases width,
{
    if text.len() < width {
        let less = padded(text, '0', (width - 1) as nat);
        let more = padded(text, '0', width);
        lemma_padding_keeps_the_value(text, (width - 1) as nat);
        assert(more =~= seq!['0'] + less);
        crate::text::digits_are_figures_and_letters('0', less, 10);
    }
}

proof fn lemma_decimal_len(n: nat, places: nat)
    requires
        n < power_of_ten(places),
        places > 0,
    ensures
        decimal(n).len() <= places,
    decreases places,
{
    if n >= 10 {
        assert(power_of_ten(0) == 1);
        if places == 1 {
            assert(power_of_ten(1) == 10 * power_of_ten(0));
        }
        assert(places > 1);
        assert(power_of_ten(places) == 10 * power_of_ten((places - 1) as nat));
        lemma_decimal_len(n / 10, (places - 1) as nat);
        assert(decimal(n) == decimal(n / 10).push(crate::text::digit(n % 10)));
    }
}

/// Whether `kept` are the figures behind the point: no more than there are places,
/// the last of them not zero, and worth so much in that place.
pub open spec fn stands_for(kept: Seq<char>, places: nat, rest: nat) -> bool {
    &&& 0 < kept.len() <= places
    &&& kept.last() != '0'
    &&& digits_value(kept, 10) * power_of_ten((places - kept.len()) as nat) == rest
}

/// A span of time is written exactly: in the largest of seconds, milli-, micro-
/// and nanoseconds of which there is one, with whatever is left over behind a
/// point, to the last figure and without idle zeros.
pub proof fn spans_are_written_exactly(nanos: nat)
    ensures
        nanos < 1_000 ==> span_text(nanos) == decimal(nanos) + "ns"@,
        1_000 <= nanos < 1_000_000 ==> is_span(nanos, 1_000, 3, "µs"@),
        1_000_000 <= nanos < 1_000_000_000 ==> is_span(nanos, 1_000_000, 6, "ms"@),
        1_000_000_000 <= nanos ==> is_span(nanos, 1_000_000_000, 9, "s"@),
{
    if nanos < 1_000 {
        assert(nanos % 1 == 0 && nanos / 1 == nanos);
    } else {
        reveal_with_fuel(power_of_ten, 10);
        let (unit, places, name) = span_unit(nanos);
        let rest = nanos % unit;
        assert(unit == power_of_ten(places));
        assert(rest < unit);
        if rest != 0 {
            lemma_decimal_len(rest, places);
            crate::text::numbers_round_trip(rest, rest);
            let digits = padded(decimal(rest), '0', places);
            lemma_padding_keeps_the_value(decimal(rest), places);
            lemma_value_of_decimal(rest);
            assert(digits.len() == places);
            lemma_without_zeros(digits);
            assert(stands_for(without_zeros(digits), places, rest));
        }
    }
}

proof fn lemma_value_of_decimal(n: nat)
    ensures
        digits_value(decimal(n), 10) == n,
{
    crate::text::numbers_round_trip(n, n);
    let s = decimal(n);
    assert('0' <= s[0] <= '9');
    assert(crate::text::unsigned_digits(s) == s);
}

/// Whether a span is written in this unit.
pub open spec fn is_span(nanos: nat, unit: nat, places: nat, name: Seq<char>) -> bool {
    &&& nanos % unit == 0 ==> span_text(nanos) == decimal(nanos / unit) + name
    &&& nanos % unit != 0 ==> exists|kept: Seq<char>| #[trigger]
        stands_for(kept, places, nanos % unit) && span_text(nanos) == decimal(nanos / unit) + "."@
            + kept + name
}

} // verus!
