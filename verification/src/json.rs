//! Text as JSON has it.
use crate::text::{all_digits, digits_value, hexadecimal, pad_text, padded, push_numeral};
use vstd::prelude::*;

verus! {

/// One character between quotes. Where `named`, the return and the tab have
/// names of their own; other control characters go by their number.
pub open spec fn escaped(c: char, named: bool) -> Seq<char> {
    if c == '"' {
        "\\\""@
    } else if c == '\\' {
        "\\\\"@
    } else if c == '\n' {
        "\\n"@
    } else if named && c == '\r' {
        "\\r"@
    } else if named && c == '\t' {
        "\\t"@
    } else if (c as u32) < 0x20 {
        "\\u"@ + padded(hexadecimal(c as nat), '0', 4)
    } else {
        seq![c]
    }
}

/// Characters between quotes.
pub open spec fn escapes(raw: Seq<char>, named: bool) -> Seq<char>
    decreases raw.len(),
{
    if raw.len() == 0 {
        Seq::empty()
    } else {
        escapes(raw.drop_last(), named) + escaped(raw.last(), named)
    }
}

/// Text between quotes.
pub open spec fn quoted(raw: Seq<char>, named: bool) -> Seq<char> {
    "\""@ + escapes(raw, named) + "\""@
}

fn push_escaped(out: &mut String, c: char, named: bool)
    ensures
        final(out)@ == old(out)@ + escaped(c, named),
{
    if c == '"' {
        out.push_str("\\\"");
    } else if c == '\\' {
        out.push_str("\\\\");
    } else if c == '\n' {
        out.push_str("\\n");
    } else if named && c == '\r' {
        out.push_str("\\r");
    } else if named && c == '\t' {
        out.push_str("\\t");
    } else if (c as u32) < 0x20 {
        out.push_str("\\u");
        let mut digits = String::new();
        push_numeral(&mut digits, c as u32 as u128, 16);
        assert(digits@ =~= hexadecimal(c as nat));
        out.push_str(&pad_text(&digits, '0', 4));
        assert(out@ =~= old(out)@ + escaped(c, named));
    } else {
        out.push(c);
        assert(out@ =~= old(out)@ + escaped(c, named));
    }
}

/// Puts text between quotes.
pub fn quote(raw: &str, named: bool) -> (text: String)
    ensures
        text@ == quoted(raw@, named),
{
    let chars = crate::text::chars_of(raw);
    let mut text = "\"".to_owned();
    let mut at: usize = 0;
    assert(raw@.take(0) =~= Seq::<char>::empty());
    assert(text@ =~= "\""@ + escapes(raw@.take(0), named));
    while at < chars.len()
        invariant
            at <= chars@.len(),
            chars@ == raw@,
            text@ == "\""@ + escapes(raw@.take(at as int), named),
        decreases chars@.len() - at,
    {
        push_escaped(&mut text, chars[at], named);
        proof {
            let longer = raw@.take(at + 1);
            assert(longer.drop_last() =~= raw@.take(at as int));
            assert(longer.last() == chars@[at as int]);
        }
        assert(text@ =~= "\""@ + escapes(raw@.take(at + 1), named));
        at += 1;
    }
    assert(raw@.take(at as int) =~= raw@);
    text.push_str("\"");
    text
}

/// Whether text holds no control character.
pub open spec fn is_plain(s: Seq<char>) -> bool {
    forall|i: int| 0 <= i < s.len() ==> 0x20 <= (#[trigger] s[i]) as u32
}

/// Whatever the text, no control character is left between the quotes: a record
/// is always one line.
pub proof fn records_stay_on_one_line(raw: Seq<char>, named: bool)
    ensures
        is_plain(quoted(raw, named)),
{
    lemma_escapes_are_plain(raw, named);
    reveal_strlit("\"");
}

proof fn lemma_escapes_are_plain(raw: Seq<char>, named: bool)
    ensures
        is_plain(escapes(raw, named)),
    decreases raw.len(),
{
    if raw.len() > 0 {
        lemma_escapes_are_plain(raw.drop_last(), named);
        lemma_escaped_is_plain(raw.last(), named);
    }
}

proof fn lemma_escaped_is_plain(c: char, named: bool)
    ensures
        is_plain(escaped(c, named)),
{
    reveal_strlit("\\\"");
    reveal_strlit("\\\\");
    reveal_strlit("\\n");
    reveal_strlit("\\r");
    reveal_strlit("\\t");
    reveal_strlit("\\u");
    if (c as u32) < 0x20 {
        lemma_numerals_are_plain(c as nat, 16);
        let digits = hexadecimal(c as nat);
        let filled = padded(digits, '0', 4);
        assert forall|i: int| 0 <= i < filled.len() implies 0x20 <= (#[trigger] filled[i]) as u32 by {
            if digits.len() < 4 && i >= 4 - digits.len() {
                assert(filled[i] == digits[i - (4 - digits.len())]);
            }
        }
    }
}

proof fn lemma_numerals_are_plain(n: nat, base: nat)
    requires
        2 <= base <= 16,
    ensures
        is_plain(crate::text::numeral(n, base)),
    decreases n,
{
    reveal_with_fuel(crate::text::numeral, 2);
    if n >= base {
        assert(n / base < n) by (nonlinear_arith)
            requires
                n >= base,
                base >= 2,
        ;
        lemma_numerals_are_plain(n / base, base);
    }
}

/// Characters between quotes, from the front.
proof fn lemma_escapes_from_the_front(raw: Seq<char>, named: bool)
    requires
        raw.len() > 0,
    ensures
        escapes(raw, named) == escaped(raw[0], named) + escapes(raw.drop_first(), named),
    decreases raw.len(),
{
    let rest = raw.drop_first();
    if raw.len() == 1 {
        assert(raw.drop_last() =~= Seq::<char>::empty());
        assert(rest =~= Seq::<char>::empty());
        assert(escapes(raw, named) =~= escaped(raw[0], named) + escapes(rest, named));
    } else {
        lemma_escapes_from_the_front(raw.drop_last(), named);
        assert(raw.drop_last().drop_first() =~= rest.drop_last());
        assert(escapes(raw, named) =~= escaped(raw[0], named) + escapes(rest, named));
    }
}

/// The number of a control character, in four digits.
proof fn lemma_control_number(c: char)
    requires
        (c as u32) < 0x20,
    ensures
        padded(hexadecimal(c as nat), '0', 4) == seq![
            '0',
            '0',
            if c as nat >= 16 {
                '1'
            } else {
                '0'
            },
            crate::text::digit(c as nat % 16),
        ],
{
    reveal_with_fuel(crate::text::numeral, 3);
    let n = c as nat;
    if n < 16 {
        assert(hexadecimal(n) =~= seq![crate::text::digit(n)]);
    } else {
        assert(n / 16 == 1);
        assert(hexadecimal(n) =~= seq!['1', crate::text::digit(n % 16)]);
    }
    assert(padded(hexadecimal(n), '0', 4) =~= seq![
        '0',
        '0',
        if n >= 16 {
            '1'
        } else {
            '0'
        },
        crate::text::digit(n % 16),
    ]);
}

/// What stands at the front tells which character it was.
proof fn lemma_escapes_are_told_apart(a: char, b: char, x: Seq<char>, y: Seq<char>, named: bool)
    requires
        escaped(a, named) + x == escaped(b, named) + y,
    ensures
        a == b,
        x == y,
{
    reveal_strlit("\\\"");
    reveal_strlit("\\\\");
    reveal_strlit("\\n");
    reveal_strlit("\\r");
    reveal_strlit("\\t");
    reveal_strlit("\\u");
    let (e, f) = (escaped(a, named), escaped(b, named));
    if (a as u32) < 0x20 {
        lemma_control_number(a);
    }
    if (b as u32) < 0x20 {
        lemma_control_number(b);
    }
    let whole = e + x;
    assert(whole == f + y);
    assert(whole[0] == e[0] && whole[0] == f[0]);
    if e.len() > 1 && f.len() > 1 {
        assert(whole[1] == e[1] && whole[1] == f[1]);
    }
    if e.len() == 6 && f.len() == 6 {
        assert(whole[4] == e[4] && whole[4] == f[4]);
        assert(whole[5] == e[5] && whole[5] == f[5]);
    }
    assert(a == b);
    assert(x =~= whole.skip(e.len() as int));
    assert(y =~= whole.skip(f.len() as int));
}

proof fn lemma_escapes_differ(a: Seq<char>, b: Seq<char>, named: bool)
    requires
        escapes(a, named) == escapes(b, named),
    ensures
        a == b,
    decreases a.len(),
{
    if a.len() > 0 {
        lemma_escapes_from_the_front(a, named);
        lemma_escaped_is_something(a[0], named);
    }
    if b.len() > 0 {
        lemma_escapes_from_the_front(b, named);
        lemma_escaped_is_something(b[0], named);
    }
    if a.len() > 0 && b.len() > 0 {
        let (x, y) = (a.drop_first(), b.drop_first());
        lemma_escapes_are_told_apart(a[0], b[0], escapes(x, named), escapes(y, named), named);
        lemma_escapes_differ(x, y, named);
        assert(a =~= seq![a[0]] + x);
        assert(b =~= seq![b[0]] + y);
    } else {
        assert(a.len() > 0 ==> escapes(a, named).len() > 0);
        assert(b.len() > 0 ==> escapes(b, named).len() > 0);
        assert(a.len() == 0 ==> escapes(a, named).len() == 0);
        assert(b.len() == 0 ==> escapes(b, named).len() == 0);
        assert(a =~= b);
    }
}

proof fn lemma_escaped_is_something(c: char, named: bool)
    ensures
        escaped(c, named).len() > 0,
{
    reveal_strlit("\\\"");
    reveal_strlit("\\\\");
    reveal_strlit("\\n");
    reveal_strlit("\\r");
    reveal_strlit("\\t");
    reveal_strlit("\\u");
}

/// Nothing is lost between quotes: different texts are quoted differently.
pub proof fn nothing_is_lost_between_quotes(a: Seq<char>, b: Seq<char>, named: bool)
    requires
        a != b,
    ensures
        quoted(a, named) != quoted(b, named),
{
    if quoted(a, named) == quoted(b, named) {
        reveal_strlit("\"");
        let (x, y) = (quoted(a, named), quoted(b, named));
        assert(escapes(a, named) =~= x.subrange(1, x.len() - 1));
        assert(escapes(b, named) =~= y.subrange(1, y.len() - 1));
        lemma_escapes_differ(a, b, named);
    }
}

/// The character that a reader makes of a backslash and `c`, but for the letter
/// that numbers follow.
pub open spec fn unescaped(c: char) -> Option<char> {
    if c == '"' || c == '\\' || c == '/' {
        Some(c)
    } else if c == 'b' {
        Some('\u{8}')
    } else if c == 'f' {
        Some('\u{c}')
    } else if c == 'n' {
        Some('\n')
    } else if c == 'r' {
        Some('\r')
    } else if c == 't' {
        Some('\t')
    } else {
        None
    }
}

/// The number that a reader finds at the front of `s`: a backslash, the letter
/// that numbers follow, and four hexadecimal digits.
pub open spec fn unit_in(s: Seq<char>) -> Option<nat> {
    if s.len() >= 6 && s[0] == '\\' && s[1] == 'u' && all_digits(s.subrange(2, 6), 16) {
        Some(digits_value(s.subrange(2, 6), 16))
    } else {
        None
    }
}

/// What a JSON reader makes of what stands behind the opening quote: the text up
/// to the closing quote, which must be all that is left. Numbers between 0xd800
/// and 0xdfff stand for a character only in pairs.
pub open spec fn read_inside(s: Seq<char>) -> Option<Seq<char>>
    decreases s.len(),
{
    if s.len() == 0 || (s[0] as u32) < 0x20 {
        None
    } else if s[0] == '"' {
        if s.len() == 1 {
            Some(Seq::empty())
        } else {
            None
        }
    } else if s[0] != '\\' {
        preceded(s[0], read_inside(s.drop_first()))
    } else if s.len() < 2 {
        None
    } else if s[1] != 'u' {
        match unescaped(s[1]) {
            Some(c) => preceded(c, read_inside(s.skip(2))),
            None => None,
        }
    } else {
        match unit_in(s) {
            None => None,
            Some(unit) => if unit < 0xd800 || unit > 0xdfff {
                preceded(unit as char, read_inside(s.skip(6)))
            } else {
                match unit_in(s.skip(6)) {
                    Some(low) => if unit < 0xdc00 && 0xdc00 <= low <= 0xdfff {
                        preceded(
                            (0x1_0000 + (unit - 0xd800) * 0x400 + (low - 0xdc00)) as char,
                            read_inside(s.skip(12)),
                        )
                    } else {
                        None
                    },
                    None => None,
                }
            },
        }
    }
}

/// `rest` with `first` in front of it, where there is a rest.
pub open spec fn preceded(first: char, rest: Option<Seq<char>>) -> Option<Seq<char>> {
    match rest {
        Some(rest) => Some(seq![first] + rest),
        None => None,
    }
}

/// The text that a JSON reader makes of `s`, where `s` is a JSON string and
/// nothing else.
pub open spec fn json_text(s: Seq<char>) -> Option<Seq<char>> {
    if s.len() > 0 && s[0] == '"' {
        read_inside(s.drop_first())
    } else {
        None
    }
}

/// An escape is read as the character that it stands for.
proof fn lemma_escape_reads_back(c: char, rest: Seq<char>, named: bool)
    ensures
        read_inside(escaped(c, named) + rest) == preceded(c, read_inside(rest)),
{
    reveal_strlit("\\\"");
    reveal_strlit("\\\\");
    reveal_strlit("\\n");
    reveal_strlit("\\r");
    reveal_strlit("\\t");
    reveal_strlit("\\u");
    if (c as u32) < 0x20 {
        lemma_control_number(c);
    }
    let e = escaped(c, named);
    let whole = e + rest;
    assert(whole.skip(e.len() as int) =~= rest);
    assert(whole[0] == e[0]);
    if e.len() == 1 {
        assert(whole.drop_first() =~= rest);
    } else if e.len() == 2 {
        assert(whole[1] == e[1]);
        assert(unescaped(e[1]) == Some(c));
    } else {
        assert(e.len() == 6);
        let digits = padded(hexadecimal(c as nat), '0', 4);
        assert(whole.subrange(2, 6) =~= digits);
        assert(whole[1] == 'u');
        assert forall|i: int| 0 <= i < 4 implies crate::text::is_digit(
            #[trigger] digits[i],
            16,
        ) by {}
        lemma_four_digits(digits);
        assert(digits_value(digits, 16) == c as nat);
        assert(unit_in(whole) == Some(c as nat));
    }
}

/// The number that four digits stand for.
proof fn lemma_four_digits(digits: Seq<char>)
    requires
        digits.len() == 4,
    ensures
        digits_value(digits, 16) == ((crate::text::digit_value(digits[0]).unwrap() * 16
            + crate::text::digit_value(digits[1]).unwrap()) * 16 + crate::text::digit_value(
            digits[2],
        ).unwrap()) * 16 + crate::text::digit_value(digits[3]).unwrap(),
{
    reveal_with_fuel(digits_value, 5);
    let three = digits.drop_last();
    let two = three.drop_last();
    let one = two.drop_last();
    assert(three.last() == digits[2]);
    assert(two.last() == digits[1]);
    assert(one.last() == digits[0]);
    assert(one.drop_last() =~= Seq::<char>::empty());
}

proof fn lemma_escapes_read_back(raw: Seq<char>, named: bool)
    ensures
        read_inside(escapes(raw, named) + seq!['"']) == Some(raw),
    decreases raw.len(),
{
    if raw.len() == 0 {
        assert(escapes(raw, named) + seq!['"'] =~= seq!['"']);
        assert(raw =~= Seq::<char>::empty());
    } else {
        let rest = raw.drop_first();
        lemma_escapes_from_the_front(raw, named);
        lemma_escapes_read_back(rest, named);
        let behind = escapes(rest, named) + seq!['"'];
        assert(escapes(raw, named) + seq!['"'] =~= escaped(raw[0], named) + behind);
        lemma_escape_reads_back(raw[0], behind, named);
        assert(seq![raw[0]] + rest =~= raw);
    }
}

/// Text between quotes is a JSON string, and a JSON reader makes of it exactly
/// the text that was quoted.
pub proof fn what_was_quoted_is_read_back(raw: Seq<char>, named: bool)
    ensures
        json_text(quoted(raw, named)) == Some(raw),
{
    reveal_strlit("\"");
    lemma_escapes_read_back(raw, named);
    let text = quoted(raw, named);
    assert(text.drop_first() =~= escapes(raw, named) + seq!['"']);
}

} // verus!
