//! Building and comparing text.

use vstd::prelude::*;

verus! {

/// `String::push` of std appends one character.
pub assume_specification[ String::push ](text: &mut String, c: char)
    ensures
        final(text)@ == old(text)@.push(c),
;

/// The decimal digit of a number below ten.
pub open spec fn digit(n: nat) -> char {
    (48 + n) as char
}

/// A number in decimal, without leading zeros.
pub open spec fn decimal(n: nat) -> Seq<char>
    decreases n,
{
    if n < 10 {
        seq![digit(n)]
    } else {
        decimal(n / 10).push(digit(n % 10))
    }
}

/// A number in decimal, with a minus sign where it is negative.
pub open spec fn signed_decimal(n: int) -> Seq<char> {
    if n < 0 {
        "-"@ + decimal((-n) as nat)
    } else {
        decimal(n as nat)
    }
}

/// Whether two texts are the same, character by character.
pub fn same(a: &str, b: &str) -> (equal: bool)
    ensures
        equal <==> a@ == b@,
{
    a.to_owned() == b.to_owned()
}

/// Appends a number in decimal.
pub fn push_decimal(out: &mut String, n: u64)
    ensures
        final(out)@ == old(out)@ + decimal(n as nat),
    decreases n,
{
    if n >= 10 {
        push_decimal(out, n / 10);
    }
    let d: u8 = (n % 10) as u8;
    out.push((48u8 + d) as char);
    proof {
        assert(final(out)@ =~= old(out)@ + decimal(n as nat));
    }
}

/// Appends a number in decimal, with a minus sign where it is negative.
pub fn push_signed_decimal(out: &mut String, n: i64)
    ensures
        final(out)@ == old(out)@ + signed_decimal(n as int),
{
    if n < 0 {
        out.append("-");
        let ghost sign = old(out)@ + "-"@;
        let magnitude: u64 = (-(n as i128)) as u64;
        push_decimal(out, magnitude);
        assert(sign + decimal(magnitude as nat) =~= old(out)@ + signed_decimal(n as int));
    } else {
        push_decimal(out, n as u64);
    }
}

/// The characters of a text.
pub fn chars_of(text: &str) -> (chars: Vec<char>)
    ensures
        chars@ == text@,
{
    let mut chars: Vec<char> = Vec::new();
    for c in it: text.chars()
        invariant
            it.seq() == text@,
            chars@ == text@.take(it.index() as int),
    {
        assert(text@.take(it.index() + 1) =~= text@.take(it.index() as int).push(c));
        chars.push(c);
    }
    assert(text@.take(text@.len() as int) =~= text@);
    chars
}

/// Appends the characters from `from` up to `to`.
pub fn push_range(out: &mut String, chars: &Vec<char>, from: usize, to: usize)
    requires
        from <= to <= chars@.len(),
    ensures
        final(out)@ == old(out)@ + chars@.subrange(from as int, to as int),
{
    let mut i: usize = from;
    while i < to
        invariant
            from <= i <= to <= chars@.len(),
            out@ == old(out)@ + chars@.subrange(from as int, i as int),
        decreases to - i,
    {
        out.push(chars[i]);
        assert(chars@.subrange(from as int, i + 1) =~= chars@.subrange(from as int, i as int).push(
            chars@[i as int],
        ));
        i = i + 1;
    }
}

/// The part of a text from `from` up to `to`.
pub fn part_of(chars: &Vec<char>, from: usize, to: usize) -> (text: String)
    requires
        from <= to <= chars@.len(),
    ensures
        text@ == chars@.subrange(from as int, to as int),
{
    let mut text = String::new();
    push_range(&mut text, chars, from, to);
    assert(Seq::<char>::empty() + chars@.subrange(from as int, to as int) =~= chars@.subrange(
        from as int,
        to as int,
    ));
    text
}

/// A text with every `from` turned into `to`.
pub open spec fn replaced(text: Seq<char>, from: char, to: char) -> Seq<char> {
    text.map_values(|c: char| if c == from { to } else { c })
}

pub fn replace(text: &str, from: char, to: char) -> (result: String)
    ensures
        result@ == replaced(text@, from, to),
{
    let chars = chars_of(text);
    let mut result = String::new();
    let mut i: usize = 0;
    while i < chars.len()
        invariant
            chars@ == text@,
            i <= chars@.len(),
            result@ == replaced(text@.take(i as int), from, to),
        decreases chars@.len() - i,
    {
        let c = if chars[i] == from {
            to
        } else {
            chars[i]
        };
        result.push(c);
        assert(result@ =~= replaced(text@.take(i + 1), from, to));
        i = i + 1;
    }
    assert(text@.take(i as int) =~= text@);
    result
}

/// A letter of ASCII in lower case; other characters stay.
pub open spec fn lowered(c: char) -> char {
    if 'A' <= c <= 'Z' {
        ((c as u32) + 32) as char
    } else {
        c
    }
}

/// A text with its ASCII letters in lower case.
pub open spec fn folded(text: Seq<char>) -> Seq<char> {
    text.map_values(|c: char| lowered(c))
}

pub fn fold(text: &str) -> (result: String)
    ensures
        result@ == folded(text@),
{
    let chars = chars_of(text);
    let mut result = String::new();
    let mut i: usize = 0;
    while i < chars.len()
        invariant
            chars@ == text@,
            i <= chars@.len(),
            result@ == folded(text@.take(i as int)),
        decreases chars@.len() - i,
    {
        let c = chars[i];
        let lower = if 'A' <= c && c <= 'Z' {
            (c as u8 + 32) as char
        } else {
            c
        };
        result.push(lower);
        assert(result@ =~= folded(text@.take(i + 1)));
        i = i + 1;
    }
    assert(text@.take(i as int) =~= text@);
    result
}

/// Whether a text begins with another one.
pub open spec fn is_prefix(prefix: Seq<char>, text: Seq<char>) -> bool {
    prefix.len() <= text.len() && text.take(prefix.len() as int) == prefix
}

pub fn starts_with(text: &str, prefix: &str) -> (yes: bool)
    ensures
        yes <==> is_prefix(prefix@, text@),
{
    let chars = chars_of(text);
    let head = chars_of(prefix);
    if head.len() > chars.len() {
        return false;
    }
    let mut i: usize = 0;
    while i < head.len()
        invariant
            chars@ == text@,
            head@ == prefix@,
            i <= head@.len() <= chars@.len(),
            text@.take(i as int) == prefix@.take(i as int),
        decreases head@.len() - i,
    {
        if chars[i] != head[i] {
            assert(text@.take(head@.len() as int)[i as int] != prefix@[i as int]);
            return false;
        }
        assert(text@.take(i + 1) =~= text@.take(i as int).push(text@[i as int]));
        assert(prefix@.take(i + 1) =~= prefix@.take(i as int).push(prefix@[i as int]));
        i = i + 1;
    }
    assert(prefix@.take(i as int) =~= prefix@);
    true
}

/// Whether a text holds a character.
pub fn holds(text: &str, c: char) -> (yes: bool)
    ensures
        yes <==> text@.contains(c),
{
    let chars = chars_of(text);
    let mut i: usize = 0;
    while i < chars.len()
        invariant
            chars@ == text@,
            i <= chars@.len(),
            forall|j: int| 0 <= j < i ==> text@[j] != c,
        decreases chars@.len() - i,
    {
        if chars[i] == c {
            assert(text@[i as int] == c);
            return true;
        }
        i = i + 1;
    }
    false
}

/// The characters that Unicode calls white space.
pub open spec fn is_space(c: char) -> bool {
    ||| '\u{9}' <= c <= '\u{d}'
    ||| c == '\u{20}'
    ||| c == '\u{85}'
    ||| c == '\u{a0}'
    ||| c == '\u{1680}'
    ||| '\u{2000}' <= c <= '\u{200a}'
    ||| c == '\u{2028}'
    ||| c == '\u{2029}'
    ||| c == '\u{202f}'
    ||| c == '\u{205f}'
    ||| c == '\u{3000}'
}

fn space(c: char) -> (yes: bool)
    ensures
        yes <==> is_space(c),
{
    ('\u{9}' <= c && c <= '\u{d}') || c == '\u{20}' || c == '\u{85}' || c == '\u{a0}' || c
        == '\u{1680}' || ('\u{2000}' <= c && c <= '\u{200a}') || c == '\u{2028}' || c == '\u{2029}'
        || c == '\u{202f}' || c == '\u{205f}' || c == '\u{3000}'
}

/// A text without the white space it starts with.
pub open spec fn trimmed_start(text: Seq<char>) -> Seq<char>
    decreases text.len(),
{
    if text.len() > 0 && is_space(text.first()) {
        trimmed_start(text.drop_first())
    } else {
        text
    }
}

/// A text without the white space it ends with.
pub open spec fn trimmed_end(text: Seq<char>) -> Seq<char>
    decreases text.len(),
{
    if text.len() > 0 && is_space(text.last()) {
        trimmed_end(text.drop_last())
    } else {
        text
    }
}

/// A text without the white space around it.
pub open spec fn trimmed(text: Seq<char>) -> Seq<char> {
    trimmed_end(trimmed_start(text))
}

pub fn trim(text: &str) -> (result: String)
    ensures
        result@ == trimmed(text@),
{
    let chars = chars_of(text);
    let mut from: usize = 0;
    assert(text@.skip(0) =~= text@);
    while from < chars.len() && space(chars[from])
        invariant
            chars@ == text@,
            from <= chars@.len(),
            trimmed_start(text@) == trimmed_start(text@.skip(from as int)),
        decreases chars@.len() - from,
    {
        assert(text@.skip(from as int).drop_first() =~= text@.skip(from + 1));
        from = from + 1;
    }
    let ghost rest = text@.skip(from as int);
    assert(trimmed_start(text@) == rest);
    let mut to: usize = chars.len();
    assert(rest =~= text@.subrange(from as int, to as int));
    while to > from && space(chars[to - 1])
        invariant
            chars@ == text@,
            from <= to <= chars@.len(),
            trimmed_end(rest) == trimmed_end(text@.subrange(from as int, to as int)),
        decreases to,
    {
        assert(text@.subrange(from as int, to as int).drop_last() =~= text@.subrange(
            from as int,
            to - 1,
        ));
        to = to - 1;
    }
    part_of(&chars, from, to)
}

/// A non-empty run of decimal digits.
pub open spec fn is_digits(text: Seq<char>) -> bool {
    &&& text.len() > 0
    &&& forall|i: int| 0 <= i < text.len() ==> '0' <= #[trigger] text[i] <= '9'
}

/// The number that a run of decimal digits stands for.
pub open spec fn digits_value(text: Seq<char>) -> nat
    decreases text.len(),
{
    if text.len() == 0 {
        0
    } else {
        digits_value(text.drop_last()) * 10 + (text.last() as nat - 48) as nat
    }
}

/// The integer that a text holds: digits, after a sign where there is one.
pub open spec fn integer_value(text: Seq<char>) -> Option<int> {
    if text.len() > 0 && text.first() == '-' && is_digits(text.drop_first()) {
        Some(-(digits_value(text.drop_first()) as int))
    } else if text.len() > 0 && text.first() == '+' && is_digits(text.drop_first()) {
        Some(digits_value(text.drop_first()) as int)
    } else if is_digits(text) {
        Some(digits_value(text) as int)
    } else {
        None
    }
}

proof fn lemma_digits_value_grows(text: Seq<char>, n: int)
    requires
        0 <= n <= text.len(),
        forall|i: int| 0 <= i < text.len() ==> '0' <= #[trigger] text[i] <= '9',
    ensures
        digits_value(text.take(n)) <= digits_value(text),
    decreases text.len() - n,
{
    if n == text.len() {
        assert(text.take(n) =~= text);
    } else {
        lemma_digits_value_grows(text, n + 1);
        assert(text.take(n + 1).drop_last() =~= text.take(n));
    }
}

/// Reads a decimal integer that fits 32 bits.
pub fn parse_i32(text: &str) -> (number: Option<i32>)
    ensures
        number matches Some(n) ==> integer_value(text@) == Some(n as int),
        number is None ==> (integer_value(text@) matches Some(n) ==> !(i32::MIN <= n <= i32::MAX)),
{
    let chars = chars_of(text);
    if chars.len() == 0 {
        return None;
    }
    let negative = chars[0] == '-';
    let from: usize = if negative || chars[0] == '+' {
        1
    } else {
        0
    };
    let ghost body = text@.skip(from as int);
    proof {
        assert(text@.skip(0) =~= text@);
        assert(text@.skip(1) =~= text@.drop_first());
        if negative || chars@[0] == '+' {
            assert(!('0' <= text@[0] <= '9'));
            assert(!is_digits(text@));
        }
    }
    if from == chars.len() {
        return None;
    }
    let mut value: u64 = 0;
    let mut i: usize = from;
    while i < chars.len()
        invariant
            chars@ == text@,
            body == text@.skip(from as int),
            from <= i <= chars@.len(),
            forall|j: int| 0 <= j < i - from ==> '0' <= #[trigger] body[j] <= '9',
            value == digits_value(body.take(i - from)),
            value <= 0x8000_0000,
            integer_value(text@) == (if is_digits(body) {
                Some(
                    if negative {
                        -(digits_value(body) as int)
                    } else {
                        digits_value(body) as int
                    },
                )
            } else {
                None
            }),
        decreases chars@.len() - i,
    {
        let c = chars[i];
        assert(body[i - from] == c);
        if c < '0' || c > '9' {
            assert(!is_digits(body));
            return None;
        }
        let d: u64 = c as u64 - 48;
        value = value * 10 + d;
        assert(body.take(i + 1 - from).drop_last() =~= body.take(i - from));
        i = i + 1;
        if value > 0x8000_0000 {
            proof {
                if is_digits(body) {
                    lemma_digits_value_grows(body, i - from);
                }
            }
            return None;
        }
    }
    assert(body.take(i - from) =~= body);
    assert(is_digits(body));
    if negative {
        Some((-(value as i64)) as i32)
    } else if value > 0x7fff_ffff {
        None
    } else {
        Some(value as i32)
    }
}

/// What is written in decimal reads back as the same number.
pub proof fn law_decimal_reads_back(n: nat)
    ensures
        is_digits(decimal(n)),
        digits_value(decimal(n)) == n,
        integer_value(decimal(n)) == Some(n as int),
        trimmed(decimal(n)) == decimal(n),
    decreases n,
{
    let text = decimal(n);
    if n >= 10 {
        law_decimal_reads_back(n / 10);
        let head = decimal(n / 10);
        assert(text.drop_last() =~= head);
        assert(text.last() == digit(n % 10));
        assert forall|i: int| 0 <= i < text.len() implies '0' <= #[trigger] text[i] <= '9' by {
            if i < head.len() {
                assert(text[i] == head[i]);
            }
        }
    } else {
        reveal_with_fuel(digits_value, 2);
        assert(text.drop_last() =~= Seq::empty());
    }
    assert('0' <= text[0] <= '9');
    assert('0' <= text[text.len() - 1] <= '9');
}

/// Different numbers are written differently.
pub proof fn law_decimal_is_injective(a: nat, b: nat)
    ensures
        decimal(a) == decimal(b) ==> a == b,
{
    law_decimal_reads_back(a);
    law_decimal_reads_back(b);
}

/// Two characters are one letter of ASCII in upper and in lower case.
pub open spec fn one_letter(a: char, b: char) -> bool {
    ||| 'A' <= a <= 'Z' && b as int == a as int + 32
    ||| 'A' <= b <= 'Z' && a as int == b as int + 32
}

/// Only the case of a letter of ASCII is lost in lower case.
pub proof fn law_lowered_letters(a: char, b: char)
    ensures
        lowered(a) == lowered(b) <==> a == b || one_letter(a, b),
        !('A' <= lowered(a) <= 'Z'),
{
}

/// A text in lower case has as many characters, each in lower case.
pub proof fn law_folded_text(text: Seq<char>, i: int)
    requires
        0 <= i < text.len(),
    ensures
        folded(text).len() == text.len(),
        folded(text)[i] == text[i] || one_letter(folded(text)[i], text[i]),
        !('A' <= folded(text)[i] <= 'Z'),
{
}

// ------------------------------------------------------------ what is written

/// A number is written without zeros in front, and a negative one with a minus
/// sign: it reads back as what it was.
pub proof fn law_signed_number_reads_back(n: int)
    ensures
        integer_value(signed_decimal(n)) == Some(n),
        n >= 10 ==> signed_decimal(n)[0] != '0',
        n < 0 <==> signed_decimal(n)[0] == '-',
{
    reveal_strlit("-");
    if n < 0 {
        law_decimal_reads_back((-n) as nat);
        assert(signed_decimal(n).drop_first() =~= decimal((-n) as nat));
    } else {
        law_decimal_reads_back(n as nat);
        lemma_no_zero_in_front(n as nat);
        assert('0' <= decimal(n as nat)[0] <= '9');
    }
}

proof fn lemma_no_zero_in_front(n: nat)
    ensures
        n > 0 ==> decimal(n)[0] != '0',
    decreases n,
{
    if n >= 10 {
        lemma_no_zero_in_front(n / 10);
        law_decimal_reads_back(n / 10);
        assert(decimal(n)[0] == decimal(n / 10)[0]);
    }
}

/// A sign is read as a sign, digits are read from the left, each ten times the
/// next, and anything else is no number.
pub proof fn law_number_is_read_from_the_left(text: Seq<char>, c: char)
    ensures
        is_digits(text) && '0' <= c <= '9' ==> integer_value(text.push(c)) == Some(
            10 * digits_value(text) + (c as int - 48),
        ),
        is_digits(text) ==> integer_value("-"@ + text) == Some(-(digits_value(text) as int)),
        is_digits(text) ==> integer_value("+"@ + text) == Some(digits_value(text) as int),
        integer_value(Seq::<char>::empty()) is None,
        integer_value("-"@) is None && integer_value("+"@) is None,
{
    reveal_strlit("-");
    reveal_strlit("+");
    assert("-"@.drop_first() =~= Seq::empty());
    assert("+"@.drop_first() =~= Seq::empty());
    assert(("-"@ + text).drop_first() =~= text);
    assert(("+"@ + text).drop_first() =~= text);
    assert(("-"@ + text)[0] == '-');
    assert(("+"@ + text)[0] == '+');
    if is_digits(text) && '0' <= c <= '9' {
        let longer = text.push(c);
        assert(longer.drop_last() =~= text);
        assert(longer[0] == text[0]);
        assert forall|i: int| 0 <= i < longer.len() implies '0' <= #[trigger] longer[i] <= '9' by {
            if i < text.len() {
                assert(longer[i] == text[i]);
            }
        }
    }
    assert(!is_digits("-"@)) by {
        assert("-"@[0] == '-');
    }
    assert(!is_digits("+"@)) by {
        assert("+"@[0] == '+');
    }
}

proof fn lemma_trimmed_start(text: Seq<char>) -> (n: int)
    ensures
        0 <= n <= text.len(),
        trimmed_start(text) == text.skip(n),
        forall|i: int| 0 <= i < n ==> is_space(#[trigger] text[i]),
        n < text.len() ==> !is_space(text[n]),
    decreases text.len(),
{
    if text.len() > 0 && is_space(text.first()) {
        let rest = text.drop_first();
        let n = lemma_trimmed_start(rest);
        assert(rest.skip(n) =~= text.skip(n + 1));
        assert forall|i: int| 0 <= i < n + 1 implies is_space(#[trigger] text[i]) by {
            if i > 0 {
                assert(text[i] == rest[i - 1]);
            }
        }
        n + 1
    } else {
        assert(text.skip(0) =~= text);
        0
    }
}

proof fn lemma_trimmed_end(text: Seq<char>) -> (n: int)
    ensures
        0 <= n <= text.len(),
        trimmed_end(text) == text.take(n),
        forall|i: int| n <= i < text.len() ==> is_space(#[trigger] text[i]),
        n > 0 ==> !is_space(text[n - 1]),
    decreases text.len(),
{
    if text.len() > 0 && is_space(text.last()) {
        let rest = text.drop_last();
        let n = lemma_trimmed_end(rest);
        assert(rest.take(n) =~= text.take(n));
        assert forall|i: int| n <= i < text.len() implies is_space(#[trigger] text[i]) by {
            if i < rest.len() {
                assert(text[i] == rest[i]);
            }
        }
        n
    } else {
        assert(text.take(text.len() as int) =~= text);
        text.len() as int
    }
}

/// Only white space is taken away, from both ends, and all of it that stands
/// there: what stays is a run of the text that neither begins nor ends with any,
/// or nothing where there is nothing else.
pub proof fn law_trim_takes_white_space_only(text: Seq<char>) -> (from: int)
    ensures
        ({
            let kept = trimmed(text);
            &&& 0 <= from <= from + kept.len() <= text.len()
            &&& kept == text.subrange(from, from + kept.len())
            &&& forall|i: int| 0 <= i < from ==> is_space(#[trigger] text[i])
            &&& forall|i: int| from + kept.len() <= i < text.len() ==> is_space(#[trigger] text[i])
            &&& kept.len() > 0 ==> !is_space(kept[0]) && !is_space(kept.last())
        }),
{
    let from = lemma_trimmed_start(text);
    let rest = text.skip(from);
    let n = lemma_trimmed_end(rest);
    let kept = trimmed(text);
    assert(kept =~= text.subrange(from, from + n));
    assert forall|i: int| from + n <= i < text.len() implies is_space(#[trigger] text[i]) by {
        assert(text[i] == rest[i - from]);
    }
    if n > 0 {
        assert(kept[0] == text[from]);
        assert(kept.last() == rest[n - 1]);
    }
    from
}

/// A blank, a tab and a line break are white space; letters, digits and marks
/// of ASCII are not.
pub proof fn law_white_space(c: char)
    ensures
        c == ' ' || c == '\t' || c == '\n' || c == '\r' ==> is_space(c),
        '!' <= c <= '~' ==> !is_space(c),
{
}

/// One character is replaced by another one wherever it stands, and nothing
/// else changes.
pub proof fn law_replaced_text(text: Seq<char>, from: char, to: char, i: int)
    requires
        0 <= i < text.len(),
    ensures
        replaced(text, from, to).len() == text.len(),
        replaced(text, from, to)[i] == (if text[i] == from {
            to
        } else {
            text[i]
        }),
{
}

/// A text begins with another one exactly where something completes that.
pub proof fn law_prefix_is_completed(prefix: Seq<char>, text: Seq<char>, rest: Seq<char>)
    ensures
        is_prefix(prefix, prefix + rest),
        is_prefix(prefix, text) ==> text == prefix + text.skip(prefix.len() as int),
{
    assert((prefix + rest).take(prefix.len() as int) =~= prefix);
    if is_prefix(prefix, text) {
        assert(text =~= prefix + text.skip(prefix.len() as int));
    }
}

/// White space is what Unicode counts as such, and nothing else.
pub proof fn law_white_space_of_unicode(c: char)
    ensures
        (c as int) < 0x2000 ==> (is_space(c) <==> seq![
            9int,
            10,
            11,
            12,
            13,
            32,
            133,
            160,
            5760,
        ].contains(c as int)),
        c as int >= 0x2000 ==> (is_space(c) <==> c as int <= 0x200a || seq![
            0x2028int,
            0x2029,
            0x202f,
            0x205f,
            0x3000,
        ].contains(c as int)),
{
    let low = seq![9int, 10, 11, 12, 13, 32, 133, 160, 5760];
    let high = seq![0x2028int, 0x2029, 0x202f, 0x205f, 0x3000];
    assert(low[0] == 9 && low[1] == 10 && low[2] == 11 && low[3] == 12 && low[4] == 13);
    assert(low[5] == 32 && low[6] == 133 && low[7] == 160 && low[8] == 5760);
    assert(high[0] == 0x2028 && high[1] == 0x2029 && high[2] == 0x202f);
    assert(high[3] == 0x205f && high[4] == 0x3000);
}

} // verus!
