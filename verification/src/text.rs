//! Text: how numbers are written and read, and how text is cut into lines and
//! words.
use vstd::prelude::*;

verus! {

/// `String::push` adds one character at the end.
pub assume_specification[ String::push ](text: &mut String, c: char)
    ensures
        final(text)@ == old(text)@.push(c),
;

/// `String::push_str` adds a whole piece of text at the end.
pub assume_specification[ String::push_str ](text: &mut String, piece: &str)
    ensures
        final(text)@ == old(text)@ + piece@,
;

/// The digit that stands for `d`, in bases up to sixteen, in lower case.
pub open spec fn digit(d: nat) -> char {
    if d < 10 {
        (48 + d) as char
    } else {
        (87 + d) as char
    }
}

/// `n` written in `base`, without leading zeros.
pub open spec fn numeral(n: nat, base: nat) -> Seq<char>
    decreases n,
{
    if base < 2 || n < base {
        seq![digit(n)]
    } else {
        proof {
            assert(n / base < n) by (nonlinear_arith)
                requires
                    n >= base,
                    base >= 2,
            ;
        }
        numeral(n / base, base).push(digit(n % base))
    }
}

/// `n` in decimal.
pub open spec fn decimal(n: nat) -> Seq<char> {
    numeral(n, 10)
}

/// `n` in lower-case hexadecimal.
pub open spec fn hexadecimal(n: nat) -> Seq<char> {
    numeral(n, 16)
}

/// `text`, with as many `fill` in front as it takes to reach `width`.
pub open spec fn padded(text: Seq<char>, fill: char, width: nat) -> Seq<char> {
    if text.len() < width {
        Seq::new((width - text.len()) as nat, |i: int| fill) + text
    } else {
        text
    }
}

fn digit_char(d: u8) -> (c: char)
    requires
        d < 16,
    ensures
        c == digit(d as nat),
{
    if d < 10 {
        (48 + d) as char
    } else {
        (87 + d) as char
    }
}

/// Adds `n`, written in `base`, to the end of `out`.
pub fn push_numeral(out: &mut String, n: u128, base: u128)
    requires
        2 <= base <= 16,
    ensures
        final(out)@ == old(out)@ + numeral(n as nat, base as nat),
    decreases n,
{
    if n < base {
        out.push(digit_char(n as u8));
    } else {
        assert(n / base < n) by (nonlinear_arith)
            requires
                n >= base,
                base >= 2,
        ;
        push_numeral(out, n / base, base);
        out.push(digit_char((n % base) as u8));
    }
}

/// Adds `n` in decimal to the end of `out`.
pub fn push_decimal(out: &mut String, n: u128)
    ensures
        final(out)@ == old(out)@ + decimal(n as nat),
{
    push_numeral(out, n, 10);
}

/// `n` in decimal.
pub fn decimal_text(n: u128) -> (text: String)
    ensures
        text@ == decimal(n as nat),
{
    let mut text = String::new();
    push_decimal(&mut text, n);
    text
}

/// The characters of `text`, one by one.
pub fn chars_of(text: &str) -> (chars: Vec<char>)
    ensures
        chars@ == text@,
{
    let mut chars: Vec<char> = Vec::new();
    for c in it: text.chars()
        invariant
            it.seq() == text@,
            chars@ == it.seq().take(it.index()),
    {
        chars.push(c);
    }
    chars
}

/// `text`, filled up on the left to `width` characters.
pub fn pad_text(text: &str, fill: char, width: usize) -> (filled: String)
    ensures
        filled@ == padded(text@, fill, width as nat),
{
    let mut filled = String::new();
    let len = chars_of(text).len();
    let mut at: usize = len;
    while at < width
        invariant
            len == text@.len(),
            len <= at,
            at <= width || at == len,
            filled@ == Seq::new((at - len) as nat, |i: int| fill),
        decreases width - at,
    {
        filled.push(fill);
        at += 1;
        assert(filled@ =~= Seq::new((at - len) as nat, |i: int| fill));
    }
    filled.push_str(text);
    assert(filled@ =~= padded(text@, fill, width as nat));
    filled
}

/// The pieces' characters, piece by piece.
pub open spec fn texts(pieces: Seq<String>) -> Seq<Seq<char>> {
    Seq::new(pieces.len(), |i: int| pieces[i]@)
}

/// How many characters of `s` stand before the first that `stop` holds of.
pub open spec fn until(s: Seq<char>, stop: spec_fn(char) -> bool) -> nat
    decreases s.len(),
{
    if s.len() == 0 || stop(s[0]) {
        0
    } else {
        1 + until(s.drop_first(), stop)
    }
}

proof fn lemma_until(s: Seq<char>, stop: spec_fn(char) -> bool, k: nat)
    requires
        k <= s.len(),
        forall|j: int| 0 <= j < k ==> !stop(#[trigger] s[j]),
        k < s.len() ==> stop(s[k as int]),
    ensures
        until(s, stop) == k,
    decreases s.len(),
{
    if k > 0 {
        assert(!stop(s[0]));
        let rest = s.drop_first();
        assert forall|j: int| 0 <= j < k - 1 implies !stop(#[trigger] rest[j]) by {
            assert(rest[j] == s[j + 1]);
        }
        lemma_until(rest, stop, (k - 1) as nat);
    }
}

/// One line that ended in a line feed, without the carriage return that may
/// stand before it.
pub open spec fn without_return(line: Seq<char>) -> Seq<char> {
    if line.len() > 0 && line.last() == '\r' {
        line.drop_last()
    } else {
        line
    }
}

/// The lines of `s`: what stands before each line feed, and what is left after
/// the last one unless that is nothing.
pub open spec fn lines(s: Seq<char>) -> Seq<Seq<char>>
    decreases s.len(),
{
    let end = until(s, |c: char| c == '\n');
    if s.len() == 0 {
        Seq::empty()
    } else if end >= s.len() {
        seq![s]
    } else {
        seq![without_return(s.take(end as int))] + lines(s.skip(end as int + 1))
    }
}

/// Whether `c` counts as white space (the Unicode property of that name).
pub open spec fn is_space(c: char) -> bool {
    ||| '\u{9}' <= c <= '\u{d}'
    ||| c == ' '
    ||| c == '\u{85}'
    ||| c == '\u{a0}'
    ||| c == '\u{1680}'
    ||| '\u{2000}' <= c <= '\u{200a}'
    ||| c == '\u{2028}'
    ||| c == '\u{2029}'
    ||| c == '\u{202f}'
    ||| c == '\u{205f}'
    ||| c == '\u{3000}'
}

fn space(c: char) -> (yes: bool)
    ensures
        yes == is_space(c),
{
    ('\u{9}' <= c && c <= '\u{d}') || c == ' ' || c == '\u{85}' || c == '\u{a0}' || c == '\u{1680}'
        || ('\u{2000}' <= c && c <= '\u{200a}') || c == '\u{2028}' || c == '\u{2029}' || c
        == '\u{202f}' || c == '\u{205f}' || c == '\u{3000}'
}

/// The words of `s`: its longest stretches without white space.
pub open spec fn words(s: Seq<char>) -> Seq<Seq<char>>
    decreases s.len(),
{
    if s.len() == 0 {
        Seq::empty()
    } else if is_space(s[0]) {
        words(s.drop_first())
    } else {
        let end = until(s, |c: char| is_space(c));
        if end >= s.len() {
            seq![s]
        } else {
            seq![s.take(end as int)] + words(s.skip(end as int + 1))
        }
    }
}

/// `chars[from..to]` as text.
pub fn text_of(chars: &[char], from: usize, to: usize) -> (text: String)
    requires
        from <= to <= chars@.len(),
    ensures
        text@ == chars@.subrange(from as int, to as int),
{
    let mut text = String::new();
    let mut at: usize = from;
    while at < to
        invariant
            from <= at <= to <= chars@.len(),
            text@ == chars@.subrange(from as int, at as int),
        decreases to - at,
    {
        text.push(chars[at]);
        at += 1;
        assert(chars@.subrange(from as int, at as int) =~= chars@.subrange(
            from as int,
            at - 1,
        ).push(chars@[at - 1]));
    }
    text
}

/// Cuts `text` into its lines.
pub fn lines_of(text: &str) -> (found: Vec<String>)
    ensures
        texts(found@) == lines(text@),
{
    let chars = chars_of(text);
    let mut found: Vec<String> = Vec::new();
    let mut start: usize = 0;
    let ghost newline = |c: char| c == '\n';
    assert(chars@.skip(0) =~= chars@);
    while start < chars.len()
        invariant
            chars@ == text@,
            start <= chars@.len(),
            newline == (|c: char| c == '\n'),
            lines(text@) == texts(found@) + lines(chars@.skip(start as int)),
        decreases chars@.len() - start,
    {
        let ghost rest = chars@.skip(start as int);
        let ghost before = texts(found@);
        let mut end: usize = start;
        while end < chars.len() && chars[end] != '\n'
            invariant
                start <= end <= chars@.len(),
                forall|j: int| start <= j < end ==> chars@[j] != '\n',
            decreases chars@.len() - end,
        {
            end += 1;
        }
        proof {
            assert forall|j: int| 0 <= j < end - start implies !newline(#[trigger] rest[j]) by {
                assert(rest[j] == chars@[start + j]);
            }
            lemma_until(rest, newline, (end - start) as nat);
        }
        if end < chars.len() {
            let mut stop: usize = end;
            if start < end && chars[end - 1] == '\r' {
                stop = end - 1;
            }
            let line = text_of(&chars, start, stop);
            found.push(line);
            proof {
                let whole = rest.take(end - start);
                assert(line@ =~= without_return(whole));
                assert(texts(found@) =~= before.push(line@));
                assert(rest.skip(end - start + 1) =~= chars@.skip(end + 1));
                assert(before + (seq![line@] + lines(chars@.skip(end + 1))) =~= texts(found@)
                    + lines(chars@.skip(end + 1)));
            }
            start = end + 1;
        } else {
            let line = text_of(&chars, start, end);
            found.push(line);
            proof {
                assert(line@ =~= rest);
                assert(texts(found@) =~= before.push(line@));
                assert(chars@.skip(end as int) =~= Seq::<char>::empty());
                assert(lines(chars@.skip(end as int)) =~= Seq::<Seq<char>>::empty());
                assert(before + seq![rest] =~= texts(found@) + lines(chars@.skip(end as int)));
            }
            start = end;
        }
    }
    proof {
        assert(chars@.skip(start as int) =~= Seq::<char>::empty());
        assert(texts(found@) + Seq::<Seq<char>>::empty() =~= texts(found@));
    }
    found
}

/// Cuts `text` into its words.
pub fn words_of(text: &str) -> (found: Vec<String>)
    ensures
        texts(found@) == words(text@),
{
    let chars = chars_of(text);
    let mut found: Vec<String> = Vec::new();
    let mut start: usize = 0;
    let ghost stop = |c: char| is_space(c);
    assert(chars@.skip(0) =~= chars@);
    while start < chars.len()
        invariant
            chars@ == text@,
            start <= chars@.len(),
            stop == (|c: char| is_space(c)),
            words(text@) == texts(found@) + words(chars@.skip(start as int)),
        decreases chars@.len() - start,
    {
        let ghost rest = chars@.skip(start as int);
        let ghost before = texts(found@);
        assert(rest[0] == chars@[start as int]);
        if space(chars[start]) {
            assert(rest.drop_first() =~= chars@.skip(start + 1));
            start += 1;
        } else {
            let mut end: usize = start;
            while end < chars.len() && !space(chars[end])
                invariant
                    start <= end <= chars@.len(),
                    forall|j: int| start <= j < end ==> !is_space(chars@[j]),
                decreases chars@.len() - end,
            {
                end += 1;
            }
            let word = text_of(&chars, start, end);
            found.push(word);
            proof {
                assert forall|j: int| 0 <= j < end - start implies !stop(#[trigger] rest[j]) by {
                    assert(rest[j] == chars@[start + j]);
                }
                lemma_until(rest, stop, (end - start) as nat);
                assert(texts(found@) =~= before.push(word@));
                if end < chars@.len() {
                    assert(word@ =~= rest.take(end - start));
                    assert(rest.skip(end - start + 1) =~= chars@.skip(end + 1));
                    assert(chars@.skip(end as int).drop_first() =~= chars@.skip(end + 1));
                    assert(chars@.skip(end as int)[0] == chars@[end as int]);
                    assert(before + (seq![word@] + words(chars@.skip(end + 1))) =~= texts(found@)
                        + words(chars@.skip(end as int)));
                } else {
                    assert(word@ =~= rest);
                    assert(chars@.skip(end as int) =~= Seq::<char>::empty());
                    assert(before + seq![rest] =~= texts(found@) + words(chars@.skip(end as int)));
                }
            }
            start = end;
        }
    }
    proof {
        assert(chars@.skip(start as int) =~= Seq::<char>::empty());
        assert(texts(found@) + Seq::<Seq<char>>::empty() =~= texts(found@));
    }
    found
}

/// `s` without the white space at its start.
pub open spec fn trimmed_start(s: Seq<char>) -> Seq<char>
    decreases s.len(),
{
    if s.len() > 0 && is_space(s[0]) {
        trimmed_start(s.drop_first())
    } else {
        s
    }
}

/// `s` without the white space at its end.
pub open spec fn trimmed_end(s: Seq<char>) -> Seq<char>
    decreases s.len(),
{
    if s.len() > 0 && is_space(s.last()) {
        trimmed_end(s.drop_last())
    } else {
        s
    }
}

/// `s` without the white space at either end.
pub open spec fn trimmed(s: Seq<char>) -> Seq<char> {
    trimmed_end(trimmed_start(s))
}

/// `text` without the white space at either end.
pub fn trim_text(text: &str) -> (inner: String)
    ensures
        inner@ == trimmed(text@),
{
    let chars = chars_of(text);
    let mut from: usize = 0;
    assert(chars@.subrange(0, chars@.len() as int) =~= chars@);
    while from < chars.len() && space(chars[from])
        invariant
            chars@ == text@,
            from <= chars@.len(),
            trimmed_start(text@) == trimmed_start(
                chars@.subrange(from as int, chars@.len() as int),
            ),
        decreases chars@.len() - from,
    {
        assert(chars@.subrange(from as int, chars@.len() as int).drop_first() =~= chars@.subrange(
            from + 1,
            chars@.len() as int,
        ));
        from += 1;
    }
    let mut to: usize = chars.len();
    let ghost kept = chars@.subrange(from as int, chars@.len() as int);
    assert(trimmed_start(text@) == kept);
    while from < to && space(chars[to - 1])
        invariant
            chars@ == text@,
            from <= to <= chars@.len(),
            trimmed_end(kept) == trimmed_end(chars@.subrange(from as int, to as int)),
        decreases to - from,
    {
        assert(chars@.subrange(from as int, to as int).drop_last() =~= chars@.subrange(
            from as int,
            to - 1,
        ));
        to -= 1;
    }
    text_of(&chars, from, to)
}

/// The value of a digit in bases up to sixteen, in either case.
pub open spec fn digit_value(c: char) -> Option<nat> {
    if '0' <= c <= '9' {
        Some((c as nat - '0' as nat) as nat)
    } else if 'a' <= c <= 'f' {
        Some((c as nat - 'a' as nat + 10) as nat)
    } else if 'A' <= c <= 'F' {
        Some((c as nat - 'A' as nat + 10) as nat)
    } else {
        None
    }
}

/// Whether `c` is a digit of `base`.
pub open spec fn is_digit(c: char, base: nat) -> bool {
    digit_value(c) matches Some(v) && v < base
}

/// The number that the digits `s` stand for in `base`.
pub open spec fn digits_value(s: Seq<char>, base: nat) -> nat
    decreases s.len(),
{
    if s.len() == 0 {
        0
    } else {
        digits_value(s.drop_last(), base) * base + digit_value(s.last()).unwrap()
    }
}

/// Whether `s` is one or more digits of `base` and nothing else.
pub open spec fn all_digits(s: Seq<char>, base: nat) -> bool {
    s.len() > 0 && forall|i: int| 0 <= i < s.len() ==> is_digit(#[trigger] s[i], base)
}

/// The digits of a number that may be written with a plus sign.
pub open spec fn unsigned_digits(s: Seq<char>) -> Seq<char> {
    if s.len() > 0 && s[0] == '+' {
        s.drop_first()
    } else {
        s
    }
}

/// The number written in `s`: digits of `base`, after a plus sign at most.
pub open spec fn number(s: Seq<char>, base: nat) -> Option<nat> {
    let digits = unsigned_digits(s);
    if all_digits(digits, base) {
        Some(digits_value(digits, base))
    } else {
        None
    }
}

/// The number written in `s`, where it is at most `max`.
pub open spec fn number_up_to(s: Seq<char>, base: nat, max: nat) -> Option<nat> {
    match number(s, base) {
        Some(n) => if n <= max {
            Some(n)
        } else {
            None
        },
        None => None,
    }
}

fn digit_of(c: char, base: u128) -> (value: Option<u128>)
    requires
        base <= 16,
    ensures
        is_digit(c, base as nat) ==> value == Some(digit_value(c).unwrap() as u128),
        !is_digit(c, base as nat) ==> value is None,
        value matches Some(v) ==> v < base && v == digit_value(c).unwrap(),
{
    let code: u32 = c as u32;
    let value: u32 = if '0' <= c && c <= '9' {
        code - 48
    } else if 'a' <= c && c <= 'f' {
        code - 87
    } else if 'A' <= c && c <= 'F' {
        code - 55
    } else {
        return None;
    };
    if (value as u128) < base {
        Some(value as u128)
    } else {
        None
    }
}

proof fn lemma_prefix_is_no_larger(s: Seq<char>, base: nat, k: int)
    requires
        0 <= k <= s.len(),
        base >= 1,
    ensures
        digits_value(s.take(k), base) <= digits_value(s, base),
    decreases s.len(),
{
    if k == s.len() {
        assert(s.take(k) =~= s);
    } else {
        lemma_prefix_is_no_larger(s.drop_last(), base, k);
        assert(s.drop_last().take(k) =~= s.take(k));
        let shorter = digits_value(s.drop_last(), base);
        assert(shorter <= shorter * base) by (nonlinear_arith)
            requires
                base >= 1,
        ;
    }
}

/// Why text is not a number.
#[derive(Clone, Copy, PartialEq, Eq, Structural, Debug)]
pub enum NumberFault {
    /// There is nothing.
    Empty,
    /// Something in it is not a digit.
    Invalid,
    /// It is larger than it may be.
    TooLarge,
}

impl NumberFault {
    /// The reason in words.
    pub open spec fn spec_message(self) -> Seq<char> {
        match self {
            NumberFault::Empty => "cannot parse integer from empty string"@,
            NumberFault::Invalid => "invalid digit found in string"@,
            NumberFault::TooLarge => "number too large to fit in target type"@,
        }
    }

    /// The reason in words.
    pub fn message(&self) -> (text: &'static str)
        ensures
            text@ == self.spec_message(),
    {
        match self {
            NumberFault::Empty => "cannot parse integer from empty string",
            NumberFault::Invalid => "invalid digit found in string",
            NumberFault::TooLarge => "number too large to fit in target type",
        }
    }
}

/// Whether the digits that `s` starts with are already more than `max`.
pub open spec fn starts_too_large(s: Seq<char>, base: nat, max: nat) -> bool {
    exists|k: int|
        {
            &&& 0 <= k <= s.len()
            &&& forall|i: int| 0 <= i < k ==> is_digit(#[trigger] s[i], base)
            &&& #[trigger] digits_value(s.take(k), base) > max
        }
}

/// What is wrong with `s`, where it is not a number up to `max`. Read from the
/// left, the first thing wrong counts.
pub open spec fn number_fault(s: Seq<char>, base: nat, max: nat) -> NumberFault {
    if s.len() == 0 {
        NumberFault::Empty
    } else if starts_too_large(unsigned_digits(s), base, max) {
        NumberFault::TooLarge
    } else {
        NumberFault::Invalid
    }
}

/// The number written in `s`, or what is wrong with it.
pub open spec fn number_in(s: Seq<char>, base: nat, max: nat) -> Result<nat, NumberFault> {
    match number_up_to(s, base, max) {
        Some(n) => Ok(n),
        None => Err(number_fault(s, base, max)),
    }
}

/// The number that was read, or why there is none.
pub open spec fn number_read(res: Result<u64, NumberFault>) -> Result<nat, NumberFault> {
    match res {
        Ok(n) => Ok(n as nat),
        Err(fault) => Err(fault),
    }
}

/// Reads a number no larger than `max`, or tells why it cannot be.
pub fn parse_number(text: &str, base: u128, max: u64) -> (res: Result<u64, NumberFault>)
    requires
        2 <= base <= 16,
    ensures
        number_read(res) == number_in(text@, base as nat, max as nat),
{
    let chars = chars_of(text);
    if chars.len() == 0 {
        return Err(NumberFault::Empty);
    }
    let mut at: usize = 0;
    if chars[0] == '+' {
        at = 1;
    }
    let ghost digits = unsigned_digits(text@);
    let ghost skipped = at as int;
    let ghost b = base as nat;
    assert(digits =~= chars@.skip(skipped));
    if at == chars.len() {
        assert(digits.take(0) =~= Seq::<char>::empty());
        assert(forall|k: int| 0 <= k <= digits.len() ==> #[trigger] digits.take(k) == digits.take(0));
        return Err(NumberFault::Invalid);
    }
    let mut value: u128 = 0;
    assert(digits.take(0) =~= Seq::<char>::empty());
    while at < chars.len()
        invariant
            chars@ == text@,
            chars@.len() > 0,
            2 <= base <= 16,
            b == base as nat,
            digits == unsigned_digits(text@),
            digits == chars@.skip(skipped),
            0 <= skipped <= at <= chars@.len(),
            digits.len() > 0,
            value <= max,
            value == digits_value(digits.take(at - skipped), b),
            forall|i: int| 0 <= i < at - skipped ==> is_digit(#[trigger] digits[i], b),
        decreases chars@.len() - at,
    {
        let ghost done = at - skipped;
        assert(digits[done] == chars@[at as int]);
        let digit = match digit_of(chars[at], base) {
            Some(d) => d,
            None => {
                proof {
                    assert(!is_digit(digits[done], b));
                    assert forall|k: int| 0 <= k <= digits.len() && (forall|i: int|
                        0 <= i < k ==> is_digit(#[trigger] digits[i], b)) implies
                        #[trigger] digits_value(digits.take(k), b) <= max by {
                        assert(k <= done);
                        lemma_prefix_is_no_larger(digits.take(done), b, k);
                        assert(digits.take(done).take(k) =~= digits.take(k));
                    }
                    assert(!starts_too_large(digits, b, max as nat));
                }
                return Err(NumberFault::Invalid);
            },
        };
        let ghost longer = digits.take(done + 1);
        assert(longer.drop_last() =~= digits.take(done));
        assert(longer.last() == digits[done]);
        assert(value * base <= max * 16) by (nonlinear_arith)
            requires
                value <= max,
                base <= 16,
        ;
        value = value * base + digit;
        at += 1;
        if value > max as u128 {
            proof {
                lemma_prefix_is_no_larger(digits, b, done + 1);
                assert(digits_value(digits.take(done + 1), b) > max);
                assert(starts_too_large(digits, b, max as nat));
            }
            return Err(NumberFault::TooLarge);
        }
    }
    assert(digits.take(at - skipped) =~= digits);
    Ok(value as u64)
}

/// Reads a number no larger than `max`.
pub fn read_number(text: &str, base: u128, max: u64) -> (n: Option<u64>)
    requires
        2 <= base <= 16,
    ensures
        n is Some <==> number_up_to(text@, base as nat, max as nat) is Some,
        n matches Some(v) ==> number_up_to(text@, base as nat, max as nat) == Some(v as nat),
{
    match parse_number(text, base, max) {
        Ok(n) => Some(n),
        Err(_) => None,
    }
}

/// Whether `part` stands somewhere in `s`.
pub open spec fn holds_part(s: Seq<char>, part: Seq<char>) -> bool {
    exists|i: int| 0 <= i <= s.len() - part.len() && #[trigger] s.subrange(i, i + part.len()) == part
}

/// Whether `part` stands somewhere in `text`.
pub fn holds_text(text: &str, part: &str) -> (found: bool)
    ensures
        found == holds_part(text@, part@),
{
    let chars = chars_of(text);
    let wanted = chars_of(part);
    if wanted.len() > chars.len() {
        return false;
    }
    let last: usize = chars.len() - wanted.len();
    let mut at: usize = 0;
    loop
        invariant
            chars@.len() <= usize::MAX,
            chars@ == text@,
            wanted@ == part@,
            wanted@.len() <= chars@.len(),
            last == chars@.len() - wanted@.len(),
            at <= last,
            forall|i: int|
                0 <= i < at ==> #[trigger] chars@.subrange(i, i + wanted@.len()) != wanted@,
        decreases last - at,
    {
        let mut same: usize = 0;
        while same < wanted.len() && chars[at + same] == wanted[same]
            invariant
                chars@.len() <= usize::MAX,
                at <= last,
                last == chars@.len() - wanted@.len(),
                same <= wanted@.len() <= chars@.len(),
                forall|j: int| 0 <= j < same ==> chars@[at + j] == wanted@[j],
            decreases wanted@.len() - same,
        {
            same += 1;
        }
        if same == wanted.len() {
            assert(chars@.subrange(at as int, at + wanted@.len()) =~= wanted@);
            return true;
        }
        assert(chars@.subrange(at as int, at + wanted@.len())[same as int] != wanted@[same as int]);
        if at == last {
            return false;
        }
        at += 1;
    }
}

/// The pieces one after another, with `between` between neighbours.
pub open spec fn joined(pieces: Seq<Seq<char>>, between: Seq<char>) -> Seq<char>
    decreases pieces.len(),
{
    if pieces.len() == 0 {
        Seq::empty()
    } else if pieces.len() == 1 {
        pieces[0]
    } else {
        joined(pieces.drop_last(), between) + between + pieces.last()
    }
}

/// The pieces one after another, with `between` between neighbours.
pub fn join_text(pieces: &[String], between: &str) -> (text: String)
    ensures
        text@ == joined(texts(pieces@), between@),
{
    let mut text = String::new();
    let mut at: usize = 0;
    assert(texts(pieces@).take(0) =~= Seq::<Seq<char>>::empty());
    while at < pieces.len()
        invariant
            at <= pieces@.len(),
            text@ == joined(texts(pieces@).take(at as int), between@),
        decreases pieces@.len() - at,
    {
        let ghost shorter = texts(pieces@).take(at as int);
        let ghost longer = texts(pieces@).take(at + 1);
        assert(longer.drop_last() =~= shorter);
        assert(longer.last() == pieces@[at as int]@);
        if at > 0 {
            text.push_str(between);
            text.push_str(&pieces[at]);
        } else {
            text.push_str(&pieces[at]);
            assert(text@ =~= longer[0]);
        }
        at += 1;
    }
    assert(texts(pieces@).take(at as int) =~= texts(pieces@));
    text
}

/// A word is read as itself.
pub proof fn lemma_one_word(word: Seq<char>)
    requires
        word.len() > 0,
        forall|i: int| 0 <= i < word.len() ==> !is_space(#[trigger] word[i]),
    ensures
        words(word) == seq![word],
{
    lemma_until(word, |c: char| is_space(c), word.len());
}

/// A word with a space behind it is the first word, whatever follows.
pub proof fn lemma_first_word(word: Seq<char>, rest: Seq<char>)
    requires
        word.len() > 0,
        forall|i: int| 0 <= i < word.len() ==> !is_space(#[trigger] word[i]),
    ensures
        words(word + seq![' '] + rest) == seq![word] + words(rest),
{
    let whole = word + seq![' '] + rest;
    let n = word.len();
    assert forall|j: int| 0 <= j < n implies !is_space(#[trigger] whole[j]) by {
        assert(whole[j] == word[j]);
    }
    lemma_until(whole, |c: char| is_space(c), n);
    assert(whole.take(n as int) =~= word);
    assert(whole.skip(n as int + 1) =~= rest);
}

/// A line with a line feed behind it is the first line, whatever follows.
pub proof fn lemma_first_line(line: Seq<char>, rest: Seq<char>)
    requires
        line.len() > 0,
        line.last() != '\r',
        forall|i: int| 0 <= i < line.len() ==> #[trigger] line[i] != '\n',
    ensures
        lines(line + seq!['\n'] + rest) == seq![line] + lines(rest),
{
    let whole = line + seq!['\n'] + rest;
    let n = line.len();
    assert forall|j: int| 0 <= j < n implies #[trigger] whole[j] != '\n' by {
        assert(whole[j] == line[j]);
    }
    lemma_until(whole, |c: char| c == '\n', n);
    assert(whole.take(n as int) =~= line);
    assert(whole.skip(n as int + 1) =~= rest);
}

proof fn lemma_decimal_digits(n: nat)
    ensures
        decimal(n).len() > 0,
        forall|i: int| 0 <= i < decimal(n).len() ==> '0' <= #[trigger] decimal(n)[i] <= '9',
        digits_value(decimal(n), 10) == n,
    decreases n,
{
    reveal_with_fuel(digits_value, 2);
    if n >= 10 {
        lemma_decimal_digits(n / 10);
        let (whole, head) = (decimal(n), decimal(n / 10));
        assert(whole.drop_last() =~= head);
        assert(whole.last() == digit(n % 10));
        assert forall|i: int| 0 <= i < whole.len() implies '0' <= #[trigger] whole[i] <= '9' by {
            if i < head.len() {
                assert(whole[i] == head[i]);
            }
        }
    } else {
        assert(decimal(n).drop_last() =~= Seq::<char>::empty());
    }
}

/// A number that was written is read back.
pub proof fn numbers_round_trip(n: nat, max: nat)
    requires
        n <= max,
    ensures
        number_up_to(decimal(n), 10, max) == Some(n),
        decimal(n).len() > 0,
        forall|i: int| 0 <= i < decimal(n).len() ==> '0' <= #[trigger] decimal(n)[i] <= '9',
{
    lemma_decimal_digits(n);
    let s = decimal(n);
    assert('0' <= s[0] <= '9');
    assert(unsigned_digits(s) == s);
    assert forall|i: int| 0 <= i < s.len() implies is_digit(#[trigger] s[i], 10) by {
        assert('0' <= s[i] <= '9');
    }
}

/// Lines that were written each with a line feed behind it are read back, empty
/// ones and all. A carriage return before the line feed is no part of its line;
/// and what stands behind the last line feed is a line of its own, as it stands,
/// unless it is nothing.
pub proof fn lines_are_read_back(line: Seq<char>, rest: Seq<char>)
    requires
        forall|i: int| 0 <= i < line.len() ==> #[trigger] line[i] != '\n',
    ensures
        line.len() == 0 || line.last() != '\r' ==> lines(line + seq!['\n'] + rest) == seq![line]
            + lines(rest),
        lines(line + seq!['\r', '\n'] + rest) == seq![line] + lines(rest),
        line.len() > 0 ==> lines(line) == seq![line],
        lines(Seq::empty()).len() == 0,
{
    let feed = |c: char| c == '\n';
    let n = line.len();
    let whole = line + seq!['\n'] + rest;
    assert forall|j: int| 0 <= j < n implies #[trigger] whole[j] != '\n' by {
        assert(whole[j] == line[j]);
    }
    lemma_until(whole, feed, n);
    assert(whole.take(n as int) =~= line);
    assert(whole.skip(n as int + 1) =~= rest);
    let longer = line.push('\r');
    let other = line + seq!['\r', '\n'] + rest;
    assert forall|j: int| 0 <= j < n + 1 implies #[trigger] other[j] != '\n' by {
        if j < n {
            assert(other[j] == line[j]);
        }
    }
    lemma_until(other, feed, n + 1);
    assert(other.take(n as int + 1) =~= longer);
    assert(longer.drop_last() =~= line);
    assert(other.skip(n as int + 2) =~= rest);
    lemma_until(line, feed, n);
}

/// Words are what stands between white space, however much of it there is and of
/// whatever kind.
pub proof fn words_stand_between_spaces(word: Seq<char>, space: char, rest: Seq<char>)
    requires
        word.len() > 0,
        forall|i: int| 0 <= i < word.len() ==> !is_space(#[trigger] word[i]),
        is_space(space),
    ensures
        words(word + seq![space] + rest) == seq![word] + words(rest),
        words(seq![space] + rest) == words(rest),
        words(word) == seq![word],
        words(Seq::empty()).len() == 0,
{
    let whole = word + seq![space] + rest;
    let n = word.len();
    assert forall|j: int| 0 <= j < n implies !is_space(#[trigger] whole[j]) by {
        assert(whole[j] == word[j]);
    }
    lemma_until(whole, |c: char| is_space(c), n);
    assert(whole.take(n as int) =~= word);
    assert(whole.skip(n as int + 1) =~= rest);
    assert((seq![space] + rest).drop_first() =~= rest);
    lemma_one_word(word);
}

/// Of the characters of ASCII, white space is the blank, the tabs, the line and
/// form feeds and the carriage return, and no character that can be seen.
pub proof fn white_space_cannot_be_seen(c: char)
    requires
        c <= '\u{7f}',
    ensures
        is_space(c) == (c == ' ' || c == '\t' || c == '\n' || c == '\u{b}' || c == '\u{c}' || c
            == '\r'),
{
}

/// Trimming takes white space off both ends, all of it, and nothing else.
pub proof fn trimming_takes_only_space(s: Seq<char>)
    ensures
        exists|i: int, j: int|
            {
                &&& 0 <= i <= j <= s.len()
                &&& trimmed(s) == #[trigger] s.subrange(i, j)
                &&& forall|k: int| 0 <= k < i || j <= k < s.len() ==> is_space(#[trigger] s[k])
            },
        trimmed(s).len() > 0 ==> !is_space(trimmed(s)[0]) && !is_space(trimmed(s).last()),
{
    let i = lemma_trimmed_start(s);
    let rest = s.skip(i);
    let n = lemma_trimmed_end(rest);
    assert(trimmed(s) =~= s.subrange(i, i + n));
    assert forall|k: int| 0 <= k < i || i + n <= k < s.len() implies is_space(#[trigger] s[k]) by {
        if k >= i {
            assert(rest[k - i] == s[k]);
        }
    }
    if trimmed(s).len() > 0 {
        assert(trimmed(s)[0] == rest[0]);
    }
}

proof fn lemma_trimmed_start(s: Seq<char>) -> (i: int)
    ensures
        0 <= i <= s.len(),
        trimmed_start(s) == s.skip(i),
        forall|k: int| 0 <= k < i ==> is_space(#[trigger] s[k]),
        i < s.len() ==> !is_space(s[i]),
    decreases s.len(),
{
    if s.len() > 0 && is_space(s[0]) {
        let rest = s.drop_first();
        let j = lemma_trimmed_start(rest);
        assert(rest.skip(j) =~= s.skip(j + 1));
        assert forall|k: int| 0 <= k < j + 1 implies is_space(#[trigger] s[k]) by {
            if k > 0 {
                assert(rest[k - 1] == s[k]);
            }
        }
        j + 1
    } else {
        assert(s.skip(0) =~= s);
        0
    }
}

proof fn lemma_trimmed_end(s: Seq<char>) -> (n: int)
    ensures
        0 <= n <= s.len(),
        trimmed_end(s) == s.take(n),
        forall|k: int| n <= k < s.len() ==> is_space(#[trigger] s[k]),
        n > 0 ==> !is_space(s[n - 1]),
    decreases s.len(),
{
    if s.len() > 0 && is_space(s.last()) {
        let rest = s.drop_last();
        let n = lemma_trimmed_end(rest);
        assert(rest.take(n) =~= s.take(n));
        assert forall|k: int| n <= k < s.len() implies is_space(#[trigger] s[k]) by {
            if k < s.len() - 1 {
                assert(rest[k] == s[k]);
            }
        }
        n
    } else {
        assert(s.take(s.len() as int) =~= s);
        s.len() as int
    }
}

/// Padding fills up from the front and keeps what was there.
pub proof fn padding_keeps_the_text(text: Seq<char>, fill: char, width: nat, i: int)
    requires
        0 <= i < padded(text, fill, width).len(),
    ensures
        ({
            let wide = padded(text, fill, width);
            &&& wide.len() == if text.len() < width { width } else { text.len() }
            &&& wide.skip(wide.len() - text.len()) == text
            &&& i < wide.len() - text.len() ==> wide[i] == fill
        }),
{
    let wide = padded(text, fill, width);
    assert(wide.skip(wide.len() - text.len()) =~= text);
}

proof fn lemma_digit(d: nat, base: nat)
    requires
        d < base <= 16,
    ensures
        digit_value(digit(d)) == Some(d),
        is_digit(digit(d), base),
        digit(d) != '+',
        d > 0 ==> digit(d) != '0',
{
}

proof fn lemma_numeral_digits(n: nat, base: nat)
    requires
        2 <= base <= 16,
    ensures
        numeral(n, base).len() > 0,
        forall|i: int| 0 <= i < numeral(n, base).len() ==> is_digit(
            #[trigger] numeral(n, base)[i],
            base,
        ),
        digits_value(numeral(n, base), base) == n,
        numeral(n, base)[0] != '+',
        n > 0 ==> numeral(n, base)[0] != '0',
    decreases n,
{
    reveal_with_fuel(digits_value, 2);
    if n < base {
        lemma_digit(n, base);
        assert(numeral(n, base).drop_last() =~= Seq::<char>::empty());
    } else {
        assert(n / base < n && n / base > 0 && n % base < base && n / base * base + n % base == n)
            by (nonlinear_arith)
            requires
                n >= base,
                base >= 2,
        ;
        lemma_numeral_digits(n / base, base);
        lemma_digit(n % base, base);
        let (whole, head) = (numeral(n, base), numeral(n / base, base));
        assert(whole.drop_last() =~= head);
        assert(whole.last() == digit(n % base));
        assert forall|i: int| 0 <= i < whole.len() implies is_digit(#[trigger] whole[i], base) by {
            if i < head.len() {
                assert(whole[i] == head[i]);
            }
        }
        assert(whole[0] == head[0]);
    }
}

/// A number that was written in any base up to sixteen is read back in it, with a
/// plus sign in front or not, and only where it is not too large; and it was
/// written without leading zeros.
pub proof fn numbers_round_trip_in_every_base(n: nat, base: nat, max: nat)
    requires
        2 <= base <= 16,
    ensures
        n <= max ==> number_up_to(numeral(n, base), base, max) == Some(n),
        n <= max ==> number_up_to(seq!['+'] + numeral(n, base), base, max) == Some(n),
        n > max ==> number_up_to(numeral(n, base), base, max) is None,
        n > 0 ==> numeral(n, base)[0] != '0',
        decimal(n) == numeral(n, 10),
        hexadecimal(n) == numeral(n, 16),
{
    lemma_numeral_digits(n, base);
    let s = numeral(n, base);
    assert(unsigned_digits(s) == s);
    assert((seq!['+'] + s).drop_first() =~= s);
    assert(unsigned_digits(seq!['+'] + s) == s);
}

/// Digits are the ten figures and the letters behind them, large or small; and
/// leading zeros change nothing.
pub proof fn digits_are_figures_and_letters(c: char, s: Seq<char>, base: nat)
    ensures
        digit_value(c) is Some <==> ('0' <= c <= '9' || 'a' <= c <= 'f' || 'A' <= c <= 'F'),
        '0' <= c <= '9' ==> digit_value(c) == Some((c as int - 48) as nat),
        'a' <= c <= 'f' ==> digit_value(c) == Some((c as int - 87) as nat),
        'A' <= c <= 'F' ==> digit_value(c) == Some((c as int - 55) as nat),
        digits_value(seq!['0'] + s, base) == digits_value(s, base),
    decreases s.len(),
{
    reveal_with_fuel(digits_value, 2);
    let longer = seq!['0'] + s;
    if s.len() == 0 {
        assert(longer.drop_last() =~= s);
        assert(digits_value(s, base) == 0);
        assert(longer.last() == '0');
        assert(0 * base == 0) by (nonlinear_arith);
    } else {
        digits_are_figures_and_letters(c, s.drop_last(), base);
        assert(longer.drop_last() =~= seq!['0'] + s.drop_last());
        assert(longer.last() == s.last());
    }
}

/// What is not made of digits is no number, and neither is nothing at all.
pub proof fn only_digits_make_a_number(s: Seq<char>, base: nat, max: nat, i: int)
    requires
        2 <= base <= 16,
        0 <= i < s.len(),
        i > 0 || s[0] != '+',
        !(digit_value(s[i]) matches Some(v) && v < base),
    ensures
        number_up_to(s, base, max) is None,
        number_up_to(Seq::empty(), base, max) is None,
        number_up_to(seq!['+'], base, max) is None,
{
    let digits = unsigned_digits(s);
    if s[0] == '+' {
        assert(digits[i - 1] == s[i]);
    } else {
        assert(digits[i] == s[i]);
    }
    assert(seq!['+'].drop_first() =~= Seq::<char>::empty());
}

/// Pieces with something between them are as long as all of that together, begin
/// with the first and end with the last.
pub proof fn joining_keeps_the_pieces(
    pieces: Seq<Seq<char>>,
    last: Seq<char>,
    between: Seq<char>,
)
    ensures
        joined(Seq::empty(), between).len() == 0,
        joined(seq![last], between) == last,
        pieces.len() > 0 ==> joined(pieces.push(last), between) == joined(pieces, between)
            + between + last,
{
    assert(pieces.push(last).drop_last() =~= pieces);
}

/// What stands between other text is part of it.
pub proof fn a_part_is_held(before: Seq<char>, part: Seq<char>, behind: Seq<char>)
    ensures
        holds_part(before + part + behind, part),
{
    let whole = before + part + behind;
    let at = before.len() as int;
    assert(whole.subrange(at, at + part.len()) =~= part);
}

/// What is part of a text stays part of it when more is written behind it; and two
/// pieces written one behind the other are part of it together.
pub proof fn writing_on_keeps_the_parts(text: Seq<char>, one: Seq<char>, two: Seq<char>)
    ensures
        forall|part: Seq<char>| #[trigger] holds_part(text, part) ==> holds_part(text + one, part),
        holds_part(text + one + two, one + two),
{
    assert forall|part: Seq<char>| #[trigger] holds_part(text, part) implies holds_part(
        text + one,
        part,
    ) by {
        let i = choose|i: int|
            0 <= i <= text.len() - part.len() && #[trigger] text.subrange(i, i + part.len())
                == part;
        assert((text + one).subrange(i, i + part.len()) =~= text.subrange(i, i + part.len()));
    }
    let (whole, part) = (text + one + two, one + two);
    let at = text.len() as int;
    assert(whole.subrange(at, at + part.len()) =~= part);
}

/// Part of a piece is part of the pieces joined, whichever piece it is.
pub proof fn joining_holds_every_piece(pieces: Seq<Seq<char>>, between: Seq<char>, i: int)
    requires
        0 <= i < pieces.len(),
    ensures
        exists|before: Seq<char>, behind: Seq<char>|
            joined(pieces, between) == #[trigger] (before + pieces[i] + behind),
        holds_part(joined(pieces, between), pieces[i]),
    decreases pieces.len(),
{
    let all = joined(pieces, between);
    let piece = pieces[i];
    let none = Seq::<char>::empty();
    if pieces.len() == 1 {
        assert(all =~= none + piece + none);
        a_part_is_held(none, piece, none);
    } else if i == pieces.len() - 1 {
        let head = joined(pieces.drop_last(), between) + between;
        assert(all =~= head + piece + none);
        a_part_is_held(head, piece, none);
    } else {
        let rest = pieces.drop_last();
        joining_holds_every_piece(rest, between, i);
        let (before, behind) = choose|before: Seq<char>, behind: Seq<char>|
            joined(rest, between) == #[trigger] (before + rest[i] + behind);
        let tail = behind + between + pieces.last();
        assert(all =~= before + piece + tail);
        a_part_is_held(before, piece, tail);
    }
}

} // verus!
