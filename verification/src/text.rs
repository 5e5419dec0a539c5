//! Text handling on sequences of characters: reading and writing decimal
//! numbers, joining, and the few string operations the rest of the crate
//! needs with an exact meaning.

use vstd::prelude::*;
use vstd::string::StringExecFns;

verus! {

/// Appends one character to the end of a string. Stands for `String::push`:
/// the string afterwards is the string before followed by `c`.
#[verifier::external_body]
pub(crate) fn push_char(s: &mut String, c: char)
    ensures
        final(s)@ == old(s)@.push(c),
{
    s.push(c)
}

/// The characters of `s`, in order.
pub fn chars_of(s: &str) -> (r: Vec<char>)
    ensures
        r@ == s@,
{
    let mut out: Vec<char> = Vec::new();
    for c in it: s.chars()
        invariant
            it.seq() == s@,
            out@ == s@.subrange(0, it.index() as int),
    {
        out.push(c);
    }
    assert(out@ == s@);
    out
}

/// The string made of `chars[from..to]`.
pub fn string_of(chars: &Vec<char>, from: usize, to: usize) -> (r: String)
    requires
        from <= to <= chars.len(),
    ensures
        r@ == chars@.subrange(from as int, to as int),
{
    let mut out = String::new();
    let mut i: usize = from;
    while i < to
        invariant
            from <= i <= to <= chars.len(),
            out@ == chars@.subrange(from as int, i as int),
        decreases to - i,
    {
        push_char(&mut out, chars[i]);
        i += 1;
        assert(chars@.subrange(from as int, i as int) == chars@.subrange(
            from as int,
            i as int - 1,
        ).push(chars@[i as int - 1]));
    }
    out
}

/// Whether a character is one of the ten digits.
pub open spec fn is_digit(c: char) -> bool {
    '0' <= c <= '9'
}

/// The number that a digit stands for.
pub open spec fn digit_value(c: char) -> int {
    c as int - '0' as int
}

/// Whether each character of `s` is a digit.
pub open spec fn all_digits(s: Seq<char>) -> bool {
    forall|i: int| 0 <= i < s.len() ==> is_digit(#[trigger] s[i])
}

/// The number that a run of decimal digits denotes, most significant first.
pub open spec fn digits_value(s: Seq<char>) -> int
    decreases s.len(),
{
    if s.len() == 0 {
        0
    } else {
        digits_value(s.drop_last()) * 10 + digit_value(s.last())
    }
}

/// The digit character for `d < 10`.
pub open spec fn digit_char(d: int) -> char {
    (d + '0' as int) as char
}

/// The decimal digits of `n`, most significant first, without leading zeros
/// (`0` is written "0").
pub open spec fn decimal(n: nat) -> Seq<char>
    decreases n,
{
    if n < 10 {
        seq![digit_char(n as int)]
    } else {
        decimal(n / 10).push(digit_char((n % 10) as int))
    }
}

fn digit_of(d: u8) -> (c: char)
    requires
        d < 10,
    ensures
        c == digit_char(d as int),
        is_digit(c),
{
    let c = (48u8 + d) as char;
    c
}

/// Writes `n` in decimal.
pub fn decimal_text(n: usize) -> (r: String)
    ensures
        r@ == decimal(n as nat),
{
    decimal_text_of(n as u64)
}

/// A signed number in decimal: the digits, after a `-` if it is negative.
pub open spec fn signed_decimal(i: int) -> Seq<char> {
    if i < 0 {
        seq!['-'] + decimal((-i) as nat)
    } else {
        decimal(i as nat)
    }
}

/// Writes `i` in decimal.
pub fn integer_text(i: i64) -> (r: String)
    ensures
        r@ == signed_decimal(i as int),
{
    if i < 0 {
        let magnitude: u64 = if i == i64::MIN {
            0x8000_0000_0000_0000
        } else {
            (-i) as u64
        };
        let digits = decimal_text_of(magnitude);
        let mut out = String::new();
        push_char(&mut out, '-');
        out.append(digits.as_str());
        assert(out@ == seq!['-'] + digits@);
        out
    } else {
        decimal_text_of(i as u64)
    }
}

/// Writes `n` in decimal.
pub fn decimal_text_of(n: u64) -> (r: String)
    ensures
        r@ == decimal(n as nat),
{
    // Collect the digits least significant first, then emit them reversed.
    let mut rev: Vec<char> = Vec::new();
    let mut m: u64 = n;
    let ghost mut tail: Seq<char> = Seq::empty();
    while m >= 10
        invariant
            rev@.len() == tail.len(),
            forall|i: int| 0 <= i < tail.len() ==> rev@[i] == tail[tail.len() - 1 - i],
            decimal(n as nat) == decimal(m as nat) + tail,
        decreases m,
    {
        let d = (m % 10) as u8;
        let c = digit_of(d);
        proof {
            assert(decimal(m as nat) == decimal((m / 10) as nat).push(c));
            assert(decimal((m / 10) as nat).push(c) + tail == decimal((m / 10) as nat) + (seq![c]
                + tail));
            tail = seq![c] + tail;
        }
        rev.push(c);
        m = m / 10;
    }
    let c = digit_of(m as u8);
    let mut out = String::new();
    push_char(&mut out, c);
    let mut i: usize = rev.len();
    while i > 0
        invariant
            i <= rev@.len(),
            rev@.len() == tail.len(),
            forall|k: int| 0 <= k < tail.len() ==> rev@[k] == tail[tail.len() - 1 - k],
            out@ == seq![c] + tail.subrange(0, tail.len() - i),
        decreases i,
    {
        i -= 1;
        push_char(&mut out, rev[i]);
        assert(seq![c] + tail.subrange(0, tail.len() - i) == (seq![c] + tail.subrange(
            0,
            tail.len() - i - 1,
        )).push(tail[tail.len() - i - 1]));
    }
    assert(tail.subrange(0, tail.len() as int) == tail);
    out
}


/// A run of digits is never worth less than one of its prefixes.
pub proof fn lemma_digits_prefix(s: Seq<char>, k: int)
    requires
        all_digits(s),
        0 <= k <= s.len(),
    ensures
        0 <= digits_value(s.subrange(0, k)) <= digits_value(s),
    decreases s.len() - k,
{
    if k == s.len() {
        assert(s.subrange(0, k) == s);
        lemma_digits_nonnegative(s);
    } else {
        lemma_digits_prefix(s.drop_last(), k);
        assert(s.drop_last().subrange(0, k) == s.subrange(0, k));
        assert(is_digit(s.last()));
    }
}

/// A run of digits is worth no less than zero.
pub proof fn lemma_digits_nonnegative(s: Seq<char>)
    requires
        all_digits(s),
    ensures
        0 <= digits_value(s),
    decreases s.len(),
{
    if s.len() > 0 {
        lemma_digits_nonnegative(s.drop_last());
        assert(is_digit(s.last()));
    }
}

/// What a text means as a base-10 signed 64-bit integer: an optional `+` or
/// `-`, then one or more digits, the number within the range of `i64`.
/// Anything else, the empty text included, means nothing.
pub open spec fn integer_of(s: Seq<char>) -> Option<i64> {
    let signed = s.len() > 0 && (s[0] == '-' || s[0] == '+');
    let negative = s.len() > 0 && s[0] == '-';
    let body = if signed {
        s.drop_first()
    } else {
        s
    };
    let magnitude = digits_value(body);
    let value = if negative {
        -magnitude
    } else {
        magnitude
    };
    if body.len() == 0 || !all_digits(body) || value < i64::MIN || value > i64::MAX {
        None
    } else {
        Some(value as i64)
    }
}

/// Reads a base-10 signed 64-bit integer.
pub fn parse_integer(chars: &Vec<char>) -> (r: Option<i64>)
    ensures
        r == integer_of(chars@),
{
    let n = chars.len();
    if n == 0 {
        return None;
    }
    let negative = chars[0] == '-';
    let start: usize = if chars[0] == '-' || chars[0] == '+' {
        1
    } else {
        0
    };
    if start == n {
        return None;
    }
    let ghost body = chars@.subrange(start as int, n as int);
    assert(body == if start == 1 {
        chars@.drop_first()
    } else {
        chars@
    });
    let mut magnitude: u64 = 0;
    let mut i: usize = start;
    while i < n
        invariant
            start <= i <= n,
            n == chars.len(),
            n > 0,
            start < n,
            start == 1 <==> chars@[0] == '-' || chars@[0] == '+',
            start == 0 || start == 1,
            body == chars@.subrange(start as int, n as int),
            body == if start == 1 {
                chars@.drop_first()
            } else {
                chars@
            },
            all_digits(body.subrange(0, i - start)),
            magnitude == digits_value(body.subrange(0, i - start)),
            magnitude <= 0x8000_0000_0000_0000,
        decreases n - i,
    {
        let c = chars[i];
        if !(c >= '0' && c <= '9') {
            assert(!is_digit(body[i - start]));
            return None;
        }
        let digit: u128 = (c as u32 - '0' as u32) as u128;
        let next: u128 = (magnitude as u128) * 10 + digit;
        let ghost longer = body.subrange(0, i - start + 1);
        proof {
            assert(longer.drop_last() == body.subrange(0, i - start));
            assert(longer.last() == c);
            assert(next == digits_value(longer));
            assert forall|k: int| 0 <= k < longer.len() implies is_digit(#[trigger] longer[k]) by {
                if k < i - start {
                    assert(longer[k] == body.subrange(0, i - start)[k]);
                }
            }
        }
        if next > 0x8000_0000_0000_0000 {
            proof {
                if all_digits(body) {
                    lemma_digits_prefix(body, i - start + 1);
                }
            }
            return None;
        }
        magnitude = next as u64;
        i += 1;
    }
    assert(body.subrange(0, n - start) == body);
    if negative {
        if magnitude == 0x8000_0000_0000_0000 {
            Some(i64::MIN)
        } else {
            Some(-(magnitude as i64))
        }
    } else if magnitude == 0x8000_0000_0000_0000 {
        None
    } else {
        Some(magnitude as i64)
    }
}

/// What a text means as a boolean: exactly `true` or `false`.
pub open spec fn boolean_of(s: Seq<char>) -> Option<bool> {
    if s == seq!['t', 'r', 'u', 'e'] {
        Some(true)
    } else if s == seq!['f', 'a', 'l', 's', 'e'] {
        Some(false)
    } else {
        None
    }
}

/// Reads a boolean.
pub fn parse_boolean(chars: &Vec<char>) -> (r: Option<bool>)
    ensures
        r == boolean_of(chars@),
{
    if chars.len() == 4 && chars[0] == 't' && chars[1] == 'r' && chars[2] == 'u' && chars[3]
        == 'e' {
        assert(chars@ == seq!['t', 'r', 'u', 'e']);
        Some(true)
    } else if chars.len() == 5 && chars[0] == 'f' && chars[1] == 'a' && chars[2] == 'l'
        && chars[3] == 's' && chars[4] == 'e' {
        assert(chars@ == seq!['f', 'a', 'l', 's', 'e']);
        Some(false)
    } else {
        proof {
            if chars@ == seq!['t', 'r', 'u', 'e'] {
                assert(chars@.len() == 4);
                assert(chars@[0] == 't' && chars@[1] == 'r' && chars@[2] == 'u' && chars@[3] == 'e');
            }
            if chars@ == seq!['f', 'a', 'l', 's', 'e'] {
                assert(chars@.len() == 5);
                assert(chars@[0] == 'f' && chars@[1] == 'a' && chars@[2] == 'l' && chars@[3] == 's'
                    && chars@[4] == 'e');
            }
        }
        None
    }
}


/// The contents of a list of strings.
pub open spec fn texts(items: Seq<String>) -> Seq<Seq<char>> {
    Seq::new(items.len(), |i: int| items[i]@)
}

/// The items written one after the other, with `separator` between two of
/// them.
pub open spec fn joined_by(items: Seq<Seq<char>>, separator: Seq<char>) -> Seq<char>
    decreases items.len(),
{
    if items.len() == 0 {
        Seq::empty()
    } else if items.len() == 1 {
        items[0]
    } else {
        joined_by(items.drop_last(), separator) + separator + items.last()
    }
}

/// The items written one after the other, with `, ` between two of them.
pub open spec fn joined(items: Seq<Seq<char>>) -> Seq<char> {
    joined_by(items, ", "@)
}

/// Writes the first `n` items one after the other, with `separator` between
/// two of them.
pub fn join_by(items: &Vec<String>, n: usize, separator: &str) -> (r: String)
    requires
        n <= items.len(),
    ensures
        r@ == joined_by(texts(items@).subrange(0, n as int), separator@),
{
    let mut out = String::new();
    let mut i: usize = 0;
    while i < n
        invariant
            i <= n <= items.len(),
            out@ == joined_by(texts(items@).subrange(0, i as int), separator@),
        decreases n - i,
    {
        let ghost before = texts(items@).subrange(0, i as int);
        let ghost after = texts(items@).subrange(0, i as int + 1);
        proof {
            assert(after.drop_last() == before);
            assert(after.last() == items@[i as int]@);
        }
        if i > 0 {
            out.append(separator);
        }
        out.append(items[i].as_str());
        i += 1;
    }
    out
}

/// Writes the items one after the other, with `, ` between two of them.
pub fn join_texts(items: &Vec<String>) -> (r: String)
    ensures
        r@ == joined(texts(items@)),
{
    assert(texts(items@).subrange(0, items@.len() as int) == texts(items@));
    join_by(items, items.len(), ", ")
}

/// Whether two texts are the same.
pub fn same_text(a: &str, b: &str) -> (r: bool)
    ensures
        r == (a@ == b@),
{
    a.to_owned() == b.to_owned()
}

/// The first `limit` characters of a text; where the text is longer, the
/// last three of them are `...`.
pub open spec fn shortened(s: Seq<char>, limit: nat) -> Seq<char> {
    if s.len() > limit {
        s.subrange(
            0,
            if limit >= 3 {
                limit - 3
            } else {
                0
            },
        ) + "..."@
    } else {
        s
    }
}

/// Cuts a text to `limit` characters.
pub fn shorten(s: &str, limit: usize) -> (r: String)
    ensures
        r@ == shortened(s@, limit as nat),
{
    let chars = chars_of(s);
    if chars.len() > limit {
        let keep: usize = if limit >= 3 {
            limit - 3
        } else {
            0
        };
        let mut out = string_of(&chars, 0, keep);
        out.append("...");
        out
    } else {
        s.to_owned()
    }
}

/// Whether `item` is one of `items`.
pub fn contains_text(items: &Vec<String>, item: &String) -> (r: bool)
    ensures
        r == texts(items@).contains(item@),
{
    let mut i: usize = 0;
    while i < items.len()
        invariant
            i <= items.len(),
            forall|k: int| 0 <= k < i ==> texts(items@)[k] != item@,
        decreases items.len() - i,
    {
        if items[i] == *item {
            assert(texts(items@)[i as int] == item@);
            return true;
        }
        i += 1;
    }
    false
}

/// The number of bytes that a text takes in UTF-8.
pub open spec fn byte_len(s: Seq<char>) -> nat {
    vstd::utf8::encode_utf8(s).len()
}

} // verus!
