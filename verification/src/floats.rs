//! The text of a float: which texts are floats, and the form a float is
//! kept in.

use crate::formats::{digit_run, lemma_digit_run};
use crate::json::{normalize_number, number_of_text};
use crate::text::{chars_of, is_digit, push_char, string_of};
use vstd::prelude::*;
use vstd::string::StringExecFns;

verus! {

/// Whether a character is a sign.
pub open spec fn is_sign(c: char) -> bool {
    c == '+' || c == '-'
}

/// Whether a character starts a power of ten.
pub open spec fn is_exponent_mark(c: char) -> bool {
    c == 'e' || c == 'E'
}

/// How many characters at the start of `s` are `0`.
pub open spec fn zero_run(s: Seq<char>) -> int
    decreases s.len(),
{
    if s.len() > 0 && s[0] == '0' {
        1 + zero_run(s.drop_first())
    } else {
        0
    }
}

/// The digits without the zeros they start with; `0` where nothing else is
/// left.
pub open spec fn without_leading_zeros(digits: Seq<char>) -> Seq<char> {
    if zero_run(digits) >= digits.len() {
        seq!['0']
    } else {
        digits.subrange(zero_run(digits), digits.len() as int)
    }
}

/// Where the parts of a decimal number stand in a text: the digits before
/// the point from `whole` to `point`, those behind it from `fraction` to
/// `exponent`, and those of the power of ten from `power` to `end`.
pub struct FloatParts {
    pub negative: bool,
    pub whole: int,
    pub point: int,
    pub dotted: bool,
    pub fraction: int,
    pub exponent: int,
    pub raised: bool,
    pub power: int,
    pub end: int,
}

/// The parts of the longest decimal number that `t` starts with: a sign if
/// there is one, digits, a point and digits if there is a point, and a power
/// of ten if there is `e` or `E`, with a sign of its own if there is one.
pub open spec fn float_parts(t: Seq<char>) -> FloatParts {
    let whole: int = if t.len() > 0 && is_sign(t[0]) {
        1
    } else {
        0
    };
    let point = whole + digit_run(t.subrange(whole, t.len() as int));
    let dotted = point < t.len() && t[point] == '.';
    let fraction = if dotted {
        point + 1
    } else {
        point
    };
    let exponent = if dotted {
        fraction + digit_run(t.subrange(fraction, t.len() as int))
    } else {
        fraction
    };
    let raised = exponent < t.len() && is_exponent_mark(t[exponent]);
    let power = if raised && exponent + 1 < t.len() && is_sign(t[exponent + 1]) {
        exponent + 2
    } else if raised {
        exponent + 1
    } else {
        exponent
    };
    let end = if raised {
        power + digit_run(t.subrange(power, t.len() as int))
    } else {
        power
    };
    FloatParts {
        negative: t.len() > 0 && t[0] == '-',
        whole,
        point,
        dotted,
        fraction,
        exponent,
        raised,
        power,
        end,
    }
}

/// Whether a text is a decimal number as a float is written: an optional
/// sign; digits, with a point before, between or behind them if there is
/// one; and an optional power of ten, `e` or `E` with an optional sign and
/// digits. At least one digit stands beside the point.
pub open spec fn is_float_text(t: Seq<char>) -> bool {
    let p = float_parts(t);
    &&& (p.point - p.whole) + (p.exponent - p.fraction) > 0
    &&& p.raised ==> p.end > p.power
    &&& p.end == t.len()
}

/// A float text in JSON number syntax: without a `+` in front, without
/// zeros before the first digit, and with a digit on either side of the
/// point.
pub open spec fn json_number_form(t: Seq<char>) -> Seq<char> {
    let p = float_parts(t);
    (if p.negative {
        seq!['-']
    } else {
        Seq::empty()
    }) + without_leading_zeros(t.subrange(p.whole, p.point)) + (if !p.dotted {
        Seq::empty()
    } else if p.exponent > p.fraction {
        seq!['.'] + t.subrange(p.fraction, p.exponent)
    } else {
        seq!['.', '0']
    }) + t.subrange(p.exponent, t.len() as int)
}

/// Whether a number's text is written as an integer: without a fraction and
/// without an exponent.
pub open spec fn is_integer_text(c: Seq<char>) -> bool {
    forall|i: int| 0 <= i < c.len() ==> !is_float_mark(#[trigger] c[i])
}

/// Whether a character stands in the text of a float only.
pub open spec fn is_float_mark(c: char) -> bool {
    c == '.' || c == 'e' || c == 'E'
}

/// What a text means as a float: the text of the 64-bit float nearest to the
/// decimal number that it is, as JSON writes a float. A text that is no
/// decimal number, or one beyond the range of a float, means nothing.
pub open spec fn float_of(t: Seq<char>) -> Option<Seq<char>> {
    if !is_float_text(t) {
        None
    } else {
        match number_of_text(json_number_form(t)) {
            None => None,
            Some(c) => if is_integer_text(c) {
                number_of_text(c + ".0"@)
            } else {
                Some(c)
            },
        }
    }
}

proof fn lemma_zero_run(s: Seq<char>, n: int)
    requires
        0 <= n <= s.len(),
        forall|j: int| 0 <= j < n ==> #[trigger] s[j] == '0',
        n == s.len() || s[n] != '0',
    ensures
        zero_run(s) == n,
    decreases s.len(),
{
    if n > 0 {
        let rest = s.drop_first();
        assert forall|j: int| 0 <= j < n - 1 implies #[trigger] rest[j] == '0' by {
            assert(rest[j] == s[j + 1]);
        }
        lemma_zero_run(rest, n - 1);
    }
}

/// Where the digits that start at `from` end.
fn digits_end(chars: &Vec<char>, from: usize) -> (to: usize)
    requires
        from <= chars.len(),
    ensures
        from <= to <= chars.len(),
        to == from + digit_run(chars@.subrange(from as int, chars@.len() as int)),
{
    let ghost rest = chars@.subrange(from as int, chars@.len() as int);
    let mut to: usize = from;
    while to < chars.len() && chars[to] >= '0' && chars[to] <= '9'
        invariant
            from <= to <= chars.len(),
            rest == chars@.subrange(from as int, chars@.len() as int),
            forall|j: int| 0 <= j < to - from ==> is_digit(#[trigger] rest[j]),
        decreases chars.len() - to,
    {
        to += 1;
    }
    proof {
        assert forall|j: int| 0 <= j < to - from implies is_digit(
            #[trigger] rest.subrange(0, to - from)[j],
        ) by {
            assert(rest.subrange(0, to - from)[j] == rest[j]);
        }
        lemma_digit_run(rest, to - from);
    }
    to
}

/// Where the parts of a decimal number stand in a text.
struct Marks {
    negative: bool,
    whole: usize,
    point: usize,
    dotted: bool,
    fraction: usize,
    exponent: usize,
    raised: bool,
    power: usize,
    end: usize,
}

impl Marks {
    spec fn are(self, p: FloatParts) -> bool {
        &&& self.negative == p.negative
        &&& self.whole == p.whole
        &&& self.point == p.point
        &&& self.dotted == p.dotted
        &&& self.fraction == p.fraction
        &&& self.exponent == p.exponent
        &&& self.raised == p.raised
        &&& self.power == p.power
        &&& self.end == p.end
    }
}

/// Finds the parts of the decimal number that `chars` starts with.
fn find_parts(chars: &Vec<char>) -> (m: Marks)
    ensures
        m.are(float_parts(chars@)),
        m.whole <= m.point <= m.fraction <= m.exponent <= m.power <= m.end <= chars.len(),
{
    let n = chars.len();
    let negative = n > 0 && chars[0] == '-';
    let whole: usize = if n > 0 && (chars[0] == '+' || chars[0] == '-') {
        1
    } else {
        0
    };
    let point = digits_end(chars, whole);
    let dotted = point < n && chars[point] == '.';
    let fraction: usize = if dotted {
        point + 1
    } else {
        point
    };
    let exponent = if dotted {
        digits_end(chars, fraction)
    } else {
        fraction
    };
    let raised = exponent < n && (chars[exponent] == 'e' || chars[exponent] == 'E');
    let power: usize = if raised && exponent + 1 < n && (chars[exponent + 1] == '+'
        || chars[exponent + 1] == '-') {
        exponent + 2
    } else if raised {
        exponent + 1
    } else {
        exponent
    };
    let end = if raised {
        digits_end(chars, power)
    } else {
        power
    };
    Marks { negative, whole, point, dotted, fraction, exponent, raised, power, end }
}

/// The digits `chars[from..to]` without the zeros they start with.
fn strip_zeros(chars: &Vec<char>, from: usize, to: usize) -> (r: String)
    requires
        from <= to <= chars.len(),
    ensures
        r@ == without_leading_zeros(chars@.subrange(from as int, to as int)),
{
    let ghost digits = chars@.subrange(from as int, to as int);
    let mut first: usize = from;
    while first < to && chars[first] == '0'
        invariant
            from <= first <= to <= chars.len(),
            digits == chars@.subrange(from as int, to as int),
            forall|j: int| 0 <= j < first - from ==> #[trigger] digits[j] == '0',
        decreases to - first,
    {
        first += 1;
    }
    proof {
        lemma_zero_run(digits, first - from);
    }
    if first == to {
        let mut zero = String::new();
        push_char(&mut zero, '0');
        assert(zero@ == seq!['0']);
        zero
    } else {
        assert(digits.subrange(first - from, digits.len() as int) == chars@.subrange(
            first as int,
            to as int,
        ));
        string_of(chars, first, to)
    }
}

/// Reads a decimal number as a float is written and gives it in JSON number
/// syntax.
pub fn float_text_form(t: &str) -> (r: Option<String>)
    ensures
        match r {
            Some(form) => is_float_text(t@) && form@ == json_number_form(t@),
            None => !is_float_text(t@),
        },
{
    let chars = chars_of(t);
    let m = find_parts(&chars);
    if (m.point - m.whole) + (m.exponent - m.fraction) == 0 || (m.raised && m.end == m.power)
        || m.end != chars.len() {
        return None;
    }
    let mut out = String::new();
    if m.negative {
        push_char(&mut out, '-');
    }
    let ghost sign = out@;
    let whole = strip_zeros(&chars, m.whole, m.point);
    out.append(whole.as_str());
    let ghost before_point = out@;
    if m.dotted {
        push_char(&mut out, '.');
        if m.exponent > m.fraction {
            let kept = string_of(&chars, m.fraction, m.exponent);
            out.append(kept.as_str());
            assert(out@ == before_point + (seq!['.'] + chars@.subrange(
                m.fraction as int,
                m.exponent as int,
            )));
        } else {
            push_char(&mut out, '0');
            assert(out@ == before_point + seq!['.', '0']);
        }
    } else {
        assert(out@ == before_point + Seq::<char>::empty());
    }
    let tail = string_of(&chars, m.exponent, chars.len());
    out.append(tail.as_str());
    Some(out)
}

/// Reads a float from its text.
pub fn parse_float_text(t: &String) -> (r: Option<String>)
    ensures
        match r {
            Some(c) => float_of(t@) == Some(c@),
            None => float_of(t@) is None,
        },
{
    let form = match float_text_form(t.as_str()) {
        Some(form) => form,
        None => {
            return None;
        },
    };
    match normalize_number(form.as_str()) {
        None => None,
        Some(c) => {
            let chars = chars_of(c.as_str());
            let mut i: usize = 0;
            while i < chars.len()
                invariant
                    i <= chars.len(),
                    chars@ == c@,
                    is_float_text(t@),
                    number_of_text(json_number_form(t@)) == Some(c@),
                    forall|k: int| 0 <= k < i ==> !is_float_mark(#[trigger] c@[k]),
                decreases chars.len() - i,
            {
                if chars[i] == '.' || chars[i] == 'e' || chars[i] == 'E' {
                    assert(is_float_mark(c@[i as int]));
                    assert(!is_integer_text(c@));
                    return Some(c);
                }
                i += 1;
            }
            let mut longer = c;
            longer.append(".0");
            normalize_number(longer.as_str())
        },
    }
}

} // verus!
