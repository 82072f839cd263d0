//! The gain of a sound source, as the decimal number that a pipeline
//! description takes.

use crate::text::{chars_of, digits_value, is_digits, same};
use vstd::prelude::*;

verus! {

// ---------------------------------------------------------- decimal numbers

/// A number without its sign.
pub open spec fn magnitude(text: Seq<char>) -> Seq<char> {
    if text.len() > 0 && text[0] == '-' {
        text.drop_first()
    } else {
        text
    }
}

/// Where the first point stands; behind the end where there is none.
pub open spec fn point_of(body: Seq<char>) -> int
    decreases body.len(),
{
    if body.len() == 0 || body.first() == '.' {
        0
    } else {
        1 + point_of(body.drop_first())
    }
}

/// A decimal number in its shortest form: no zeros in front of the whole part,
/// and a fraction that does not end with a zero, or none.
pub open spec fn is_decimal(text: Seq<char>) -> bool {
    let body = magnitude(text);
    let point = point_of(body);
    &&& is_digits(body.take(point))
    &&& point == 1 || body[0] != '0'
    &&& point < body.len() ==> is_digits(body.skip(point + 1)) && body.last() != '0'
}

pub open spec fn is_zero(text: Seq<char>) -> bool {
    magnitude(text) == seq!['0']
}

/// Two gains are the same number: zero has two forms, any other number one.
pub open spec fn same_gain(a: Seq<char>, b: Seq<char>) -> bool {
    a == b || (is_zero(a) && is_zero(b))
}

// -------------------------------------------------------------------- gains

/// A gain.
#[derive(Debug)]
pub struct Volume {
    text: String,
}

impl View for Volume {
    type V = Seq<char>;

    closed spec fn view(&self) -> Seq<char> {
        self.text@
    }
}

impl Clone for Volume {
    fn clone(&self) -> (copy: Self)
        ensures
            copy == *self,
    {
        proof {
            use_type_invariant(self);
        }
        Volume { text: self.text.clone() }
    }
}

impl Default for Volume {
    /// The sound as it is.
    fn default() -> (volume: Self)
        ensures
            volume@ == "1"@,
    {
        proof {
            reveal_strlit("1");
            let one = "1"@;
            assert(one =~= seq!['1']);
            assert(one.drop_first() =~= Seq::empty());
            reveal_with_fuel(point_of, 2);
            assert(one.take(1) =~= one);
        }
        Volume { text: "1".to_owned() }
    }
}

fn all_digits(chars: &Vec<char>, from: usize, to: usize) -> (yes: bool)
    requires
        from <= to <= chars@.len(),
    ensures
        yes <==> is_digits(chars@.subrange(from as int, to as int)),
{
    let ghost part = chars@.subrange(from as int, to as int);
    let mut i: usize = from;
    while i < to
        invariant
            from <= i <= to <= chars@.len(),
            part == chars@.subrange(from as int, to as int),
            forall|k: int| 0 <= k < i - from ==> '0' <= #[trigger] part[k] <= '9',
        decreases to - i,
    {
        assert(part[i - from] == chars@[i as int]);
        if chars[i] < '0' || chars[i] > '9' {
            return false;
        }
        i = i + 1;
    }
    from < to
}

impl Volume {
    /// The text is a decimal number.
    #[verifier::type_invariant]
    spec fn is_number(self) -> bool {
        is_decimal(self.text@)
    }

    /// The gain that a decimal number stands for; nothing for other text.
    pub fn parse(text: &str) -> (volume: Option<Self>)
        ensures
            volume is Some <==> is_decimal(text@),
            volume matches Some(v) ==> v@ == text@,
    {
        let chars = chars_of(text);
        let total: usize = chars.len();
        let from: usize = if total > 0 && chars[0] == '-' {
            1
        } else {
            0
        };
        let ghost body = magnitude(text@);
        assert(body =~= chars@.skip(from as int));
        let mut point: usize = from;
        assert(body.skip(0) =~= body);
        while point < total && chars[point] != '.'
            invariant
                total == chars@.len(),
                from <= point <= total,
                body == chars@.skip(from as int),
                point_of(body) == point - from + point_of(body.skip(point - from)),
            decreases total - point,
        {
            assert(body.skip(point - from).drop_first() =~= body.skip(point + 1 - from));
            assert(body.skip(point - from).first() == chars@[point as int]);
            point = point + 1;
        }
        proof {
            if point < total {
                assert(body.skip(point - from).first() == chars@[point as int]);
            }
            assert(point_of(body) == point - from);
            assert(body.take(point - from) =~= chars@.subrange(from as int, point as int));
        }
        if !all_digits(&chars, from, point) {
            return None;
        }
        assert(body[0] == chars@[from as int]);
        if point - from > 1 && chars[from] == '0' {
            return None;
        }
        if point < total {
            assert(body.skip(point + 1 - from) =~= chars@.subrange(point + 1, total as int));
            if !all_digits(&chars, point + 1, total) {
                return None;
            }
            assert(body.last() == chars@[total - 1]);
            if chars[total - 1] == '0' {
                return None;
            }
        }
        Some(Volume { text: text.to_owned() })
    }

    /// The number as text.
    pub fn as_str(&self) -> (text: &str)
        ensures
            text@ == self@,
            is_decimal(self@),
    {
        proof {
            use_type_invariant(self);
        }
        self.text.as_str()
    }

    fn zero(&self) -> (yes: bool)
        ensures
            yes <==> is_zero(self@),
    {
        let chars = chars_of(self.text.as_str());
        magnitude_is_zero(&chars)
    }

    /// Whether two gains are the same number.
    pub fn same_as(&self, other: &Self) -> (equal: bool)
        ensures
            equal <==> same_gain(self@, other@),
    {
        same(self.text.as_str(), other.text.as_str()) || (self.zero() && other.zero())
    }
}

fn magnitude_is_zero(chars: &Vec<char>) -> (yes: bool)
    ensures
        yes <==> is_zero(chars@),
{
    let ghost body = magnitude(chars@);
    if chars.len() == 1 && chars[0] == '0' {
        assert(body =~= seq!['0']);
        true
    } else if chars.len() == 2 && chars[0] == '-' && chars[1] == '0' {
        assert(body =~= seq!['0']);
        true
    } else {
        proof {
            if body == seq!['0'] {
                assert(body[0] == '0');
                assert(body.len() == 1);
            }
        }
        false
    }
}

// ----------------------------------------------------------------- the laws

pub open spec fn pow10(n: nat) -> nat
    decreases n,
{
    if n == 0 {
        1
    } else {
        10 * pow10((n - 1) as nat)
    }
}

/// The digits of a number, without its sign and its point.
pub open spec fn digits_of(text: Seq<char>) -> Seq<char> {
    let body = magnitude(text);
    let point = point_of(body);
    if point < body.len() {
        body.take(point) + body.skip(point + 1)
    } else {
        body
    }
}

/// How many digits stand behind the point.
pub open spec fn scale_of(text: Seq<char>) -> nat {
    let body = magnitude(text);
    let point = point_of(body);
    if point < body.len() {
        (body.len() - point - 1) as nat
    } else {
        0
    }
}

/// The whole number that a decimal number is without its point.
pub open spec fn mantissa_of(text: Seq<char>) -> int {
    let value = digits_value(digits_of(text)) as int;
    if text.len() > 0 && text[0] == '-' {
        -value
    } else {
        value
    }
}

/// Two decimal numbers have the same value.
pub open spec fn same_number(a: Seq<char>, b: Seq<char>) -> bool {
    mantissa_of(a) * pow10(scale_of(b)) == mantissa_of(b) * pow10(scale_of(a))
}

proof fn lemma_point(body: Seq<char>)
    ensures
        0 <= point_of(body) <= body.len(),
        point_of(body) < body.len() ==> body[point_of(body)] == '.',
    decreases body.len(),
{
    if body.len() > 0 && body.first() != '.' {
        lemma_point(body.drop_first());
    }
}

/// The digits of a number are digits, at least one of them before the point.
proof fn lemma_digits_of(text: Seq<char>)
    requires
        is_decimal(text),
    ensures
        is_digits(digits_of(text)),
        digits_of(text).len() > scale_of(text),
        digits_of(text).len() > scale_of(text) + 1 ==> digits_of(text)[0] != '0',
        scale_of(text) > 0 ==> digits_of(text).last() != '0',
{
    let body = magnitude(text);
    let point = point_of(body);
    let digits = digits_of(text);
    lemma_point(body);
    assert(body.take(point)[0] == body[0]);
    if point < body.len() {
        let whole = body.take(point);
        let part = body.skip(point + 1);
        assert forall|i: int| 0 <= i < digits.len() implies '0' <= #[trigger] digits[i] <= '9' by {
            if i < point {
                assert(digits[i] == whole[i]);
            } else {
                assert(digits[i] == part[i - point]);
            }
        }
        assert(digits[0] == whole[0]);
        assert(part.last() == body.last());
        assert(digits.last() == part.last());
    } else {
        assert(body.take(point) =~= body);
    }
}

proof fn lemma_value_bounds(digits: Seq<char>)
    requires
        is_digits(digits),
    ensures
        digits_value(digits) < pow10(digits.len()),
        digits[0] != '0' ==> digits_value(digits) >= pow10((digits.len() - 1) as nat),
    decreases digits.len(),
{
    let head = digits.drop_last();
    if head.len() == 0 {
        reveal_with_fuel(digits_value, 2);
        reveal_with_fuel(pow10, 2);
        assert(head =~= Seq::empty());
        assert(digits[0] == digits.last());
    } else {
        assert forall|i: int| 0 <= i < head.len() implies '0' <= #[trigger] head[i] <= '9' by {
            assert(head[i] == digits[i]);
        }
        lemma_value_bounds(head);
        assert('0' <= digits[digits.len() - 1] <= '9');
    }
}

/// Runs of as many digits that have the same value are the same.
proof fn lemma_value_tells_digits(a: Seq<char>, b: Seq<char>)
    requires
        is_digits(a),
        is_digits(b),
        a.len() == b.len(),
        digits_value(a) == digits_value(b),
    ensures
        a == b,
    decreases a.len(),
{
    let x = a.drop_last();
    let y = b.drop_last();
    assert('0' <= a[a.len() - 1] <= '9');
    assert('0' <= b[b.len() - 1] <= '9');
    if x.len() > 0 {
        assert forall|i: int| 0 <= i < x.len() implies '0' <= #[trigger] x[i] <= '9' by {
            assert(x[i] == a[i]);
        }
        assert forall|i: int| 0 <= i < y.len() implies '0' <= #[trigger] y[i] <= '9' by {
            assert(y[i] == b[i]);
        }
        lemma_value_tells_digits(x, y);
        assert(a =~= x.push(a.last()));
        assert(b =~= y.push(b.last()));
    } else {
        assert(x =~= Seq::empty());
        assert(y =~= Seq::empty());
        assert(a =~= seq![a.last()]);
        assert(b =~= seq![b.last()]);
    }
}

proof fn lemma_pow10_adds(a: nat, b: nat)
    ensures
        pow10(a + b) == pow10(a) * pow10(b),
        pow10(a) > 0,
    decreases a,
{
    if a == 0 {
        let q = pow10(b);
        assert(pow10(0) == 1);
        assert(1 * q == q);
        assert(a + b == b);
    } else {
        lemma_pow10_adds((a - 1) as nat, b);
        let p = pow10((a - 1) as nat);
        let q = pow10(b);
        assert(10 * (p * q) == (10 * p) * q) by (nonlinear_arith);
    }
}

proof fn lemma_pow10_grows(a: nat, b: nat)
    requires
        a <= b,
    ensures
        pow10(a) <= pow10(b),
    decreases b,
{
    if a < b {
        lemma_pow10_grows(a, (b - 1) as nat);
    }
}

/// Numbers in shortest form that have the same value have as many digits
/// behind the point.
proof fn lemma_same_scale(a: Seq<char>, b: Seq<char>)
    requires
        is_decimal(a),
        is_decimal(b),
        same_number(a, b),
    ensures
        scale_of(a) <= scale_of(b),
{
    let (s, t) = (scale_of(a), scale_of(b));
    if s > t {
        let (m, n) = (mantissa_of(a), mantissa_of(b));
        let k = (s - t) as nat;
        lemma_digits_of(a);
        lemma_pow10_adds(k, t);
        lemma_pow10_adds(t, 0);
        let (p, q) = (pow10(t) as int, pow10(k) as int);
        assert(m * p == n * (q * p));
        assert(m == n * q) by (nonlinear_arith)
            requires
                m * p == n * (q * p),
                p > 0,
        ;
        let r = pow10((k - 1) as nat) as int;
        assert(m == 10 * (n * r)) by (nonlinear_arith)
            requires
                m == n * q,
                q == 10 * r,
        ;
        let digits = digits_of(a);
        let value = digits_value(digits) as int;
        assert('0' <= digits[digits.len() - 1] <= '9');
        assert(value % 10 == digits.last() as int - 48);
        assert(digits.last() as int != 48);
        assert(m % 10 == 0);
        assert(value % 10 == 0);
    }
}

/// A decimal number holds digits, a sign and a point, and nothing that would
/// mean something else in a description.
pub proof fn law_number_has_no_marks(text: Seq<char>)
    requires
        is_decimal(text),
    ensures
        !text.contains('!'),
        !text.contains(' '),
        !text.contains('"'),
{
    let body = magnitude(text);
    let point = point_of(body);
    lemma_point(body);
    assert forall|i: int| 0 <= i < text.len() implies text[i] == '-' || text[i] == '.' || '0'
        <= #[trigger] text[i] <= '9' by {
        let k = if text[0] == '-' {
            i - 1
        } else {
            i
        };
        if k >= 0 {
            assert(text[i] == body[k]);
            if k < point {
                assert(body.take(point)[k] == body[k]);
            } else if k > point {
                assert(body.skip(point + 1)[k - point - 1] == body[k]);
            }
        }
    }
}

/// Gains are compared as the numbers that they are.
pub proof fn law_gains_are_compared_as_numbers(a: Seq<char>, b: Seq<char>)
    requires
        is_decimal(a),
        is_decimal(b),
    ensures
        same_gain(a, b) <==> same_number(a, b),
{
    if is_zero(a) && is_zero(b) {
        lemma_zero_is_zero(a);
        lemma_zero_is_zero(b);
    }
    if same_number(a, b) {
        lemma_same_scale(a, b);
        lemma_same_scale(b, a);
        lemma_pow10_adds(scale_of(a), 0);
        let p = pow10(scale_of(a)) as int;
        let (m, n) = (mantissa_of(a), mantissa_of(b));
        assert(m == n) by (nonlinear_arith)
            requires
                m * p == n * p,
                p > 0,
        ;
        let (x, y) = (digits_of(a), digits_of(b));
        lemma_digits_of(a);
        lemma_digits_of(b);
        assert(digits_value(x) == digits_value(y));
        if x.len() > y.len() {
            lemma_longer_is_larger(x, y);
        } else if y.len() > x.len() {
            lemma_longer_is_larger(y, x);
        }
        lemma_value_tells_digits(x, y);
        lemma_digits_tell_body(a, b);
        if m == 0 {
            lemma_no_value_is_zero(a);
            lemma_no_value_is_zero(b);
        } else if a[0] == '-' {
            assert(a =~= seq!['-'] + magnitude(a));
            assert(b =~= seq!['-'] + magnitude(b));
        }
    }
}

proof fn lemma_zero_is_zero(text: Seq<char>)
    requires
        is_zero(text),
    ensures
        mantissa_of(text) == 0,
        scale_of(text) == 0,
{
    let body = seq!['0'];
    reveal_with_fuel(point_of, 2);
    reveal_with_fuel(digits_value, 2);
    assert(body.drop_first() =~= Seq::empty());
    assert(body.drop_last() =~= Seq::empty());
}

proof fn lemma_longer_is_larger(a: Seq<char>, b: Seq<char>)
    requires
        is_digits(a),
        is_digits(b),
        a.len() > b.len(),
        a[0] != '0',
    ensures
        digits_value(a) > digits_value(b),
{
    lemma_value_bounds(a);
    lemma_value_bounds(b);
    lemma_pow10_grows(b.len(), (a.len() - 1) as nat);
}

proof fn lemma_digits_tell_body(a: Seq<char>, b: Seq<char>)
    requires
        digits_of(a) == digits_of(b),
        scale_of(a) == scale_of(b),
        is_decimal(a),
        is_decimal(b),
    ensures
        magnitude(a) == magnitude(b),
{
    let (x, y) = (magnitude(a), magnitude(b));
    lemma_point(x);
    lemma_point(y);
    let (p, q) = (point_of(x), point_of(y));
    let digits = digits_of(a);
    if p < x.len() {
        assert(x =~= digits.take(p) + seq!['.'] + digits.skip(p));
        assert(y =~= digits.take(q) + seq!['.'] + digits.skip(q));
    }
}

proof fn lemma_no_value_is_zero(text: Seq<char>)
    requires
        is_decimal(text),
        mantissa_of(text) == 0,
    ensures
        is_zero(text),
{
    let digits = digits_of(text);
    lemma_digits_of(text);
    lemma_value_bounds(digits);
    lemma_point(magnitude(text));
    lemma_pow10_adds((digits.len() - 1) as nat, 0);
    assert('0' <= digits[digits.len() - 1] <= '9');
    if scale_of(text) > 0 {
        assert(digits_value(digits) % 10 == digits.last() as int - 48);
        assert(digits.last() as int != 48);
    }
    assert(digits.len() == 1);
    assert(digits =~= seq!['0']);
}

proof fn lemma_point_is(body: Seq<char>, at: int)
    requires
        0 <= at <= body.len(),
        at < body.len() ==> body[at] == '.',
        forall|i: int| 0 <= i < at ==> #[trigger] body[i] != '.',
    ensures
        point_of(body) == at,
    decreases at,
{
    if at > 0 {
        let rest = body.drop_first();
        assert(body[0] != '.');
        assert forall|i: int| 0 <= i < at - 1 implies #[trigger] rest[i] != '.' by {
            assert(rest[i] == body[i + 1]);
        }
        lemma_point_is(rest, at - 1);
    }
}

/// Digits are a number, with or without a sign in front, and with or without a
/// point and more digits behind: unless a zero stands in front of other digits
/// of the whole part, or at the end of the fraction.
pub proof fn law_which_texts_are_numbers(whole: Seq<char>, part: Seq<char>)
    requires
        is_digits(whole),
        is_digits(part),
    ensures
        is_decimal(whole) <==> whole.len() == 1 || whole[0] != '0',
        is_decimal("-"@ + whole) <==> whole.len() == 1 || whole[0] != '0',
        is_decimal(whole + "."@ + part) <==> (whole.len() == 1 || whole[0] != '0') && part.last()
            != '0',
        is_decimal("-"@ + whole + "."@ + part) <==> (whole.len() == 1 || whole[0] != '0')
            && part.last() != '0',
        !is_decimal(""@),
        !is_decimal("-"@),
        !is_decimal("+"@ + whole),
        !is_decimal("."@ + part),
        !is_decimal(whole + "."@),
        !is_decimal(whole + "."@ + part + "."@ + part),
{
    reveal_strlit("");
    reveal_strlit("-");
    reveal_strlit("+");
    reveal_strlit(".");
    let n = whole.len() as int;
    assert('0' <= whole[0] <= '9');
    assert('0' <= part[0] <= '9');
    let fraction = whole + "."@ + part;
    let twice = whole + "."@ + part + "."@ + part;
    let ended = whole + "."@;
    lemma_point_is(whole, n);
    assert(whole.take(n) =~= whole);
    assert(("-"@ + whole).drop_first() =~= whole);
    assert(("-"@ + whole + "."@ + part).drop_first() =~= fraction);
    assert("-"@.drop_first() =~= ""@);
    lemma_point_is(fraction, n);
    assert(fraction.take(n) =~= whole);
    assert(fraction.skip(n + 1) =~= part);
    lemma_point_is(ended, n);
    assert(ended.skip(n + 1) =~= Seq::<char>::empty());
    lemma_point_is(twice, n);
    assert(twice.skip(n + 1)[part.len() as int] == '.');
    let plus = "+"@ + whole;
    assert forall|i: int| 0 <= i < plus.len() implies #[trigger] plus[i] != '.' by {
        if i > 0 {
            assert(plus[i] == whole[i - 1]);
        }
    }
    lemma_point_is(plus, plus.len() as int);
    assert(plus.take(plus.len() as int)[0] == '+');
    let bare = "."@ + part;
    lemma_point_is(bare, 0);
    assert(bare.take(0) =~= Seq::<char>::empty());
}

/// Gains that are written differently are the same in one case only: a zero
/// with a sign and one without.
pub proof fn law_only_zero_is_written_twice(a: Seq<char>, b: Seq<char>)
    ensures
        same_gain(a, a),
        same_gain(a, b) <==> same_gain(b, a),
        same_gain("0"@, "-0"@),
        same_gain(a, b) && a != b ==> (a == "0"@ && b == "-0"@) || (a == "-0"@ && b == "0"@),
{
    reveal_strlit("0");
    reveal_strlit("-0");
    assert("0"@ =~= seq!['0']);
    assert("-0"@.drop_first() =~= seq!['0']);
    if same_gain(a, b) && a != b {
        lemma_zero_is(a);
        lemma_zero_is(b);
    }
}

proof fn lemma_zero_is(text: Seq<char>)
    requires
        is_zero(text),
    ensures
        text == "0"@ || text == "-0"@,
{
    reveal_strlit("0");
    reveal_strlit("-0");
    let body = magnitude(text);
    assert(body.len() == 1 && body[0] == '0');
    if text[0] == '-' {
        assert(text[1] == body[0]);
        assert(text =~= "-0"@);
    } else {
        assert(text =~= "0"@);
    }
}

} // verus!
