//! Searching, splitting, trimming and replacing in texts.

use crate::text::string_of;
use vstd::prelude::*;

verus! {

/// Whether `char::is_numeric` holds of a character: it is a number in
/// Unicode's general categories `Nd`, `Nl` or `No`.
pub uninterp spec fn is_numeric_char(c: char) -> bool;

/// `char::is_numeric`.
#[verifier::external_body]
pub(crate) fn char_is_numeric(c: char) -> (r: bool)
    ensures
        r == is_numeric_char(c),
{
    c.is_numeric()
}

/// Whether `char::is_whitespace` holds of a character: it has Unicode's
/// property `White_Space`.
pub uninterp spec fn is_whitespace_char(c: char) -> bool;

/// `char::is_whitespace`.
#[verifier::external_body]
pub(crate) fn char_is_whitespace(c: char) -> (r: bool)
    ensures
        r == is_whitespace_char(c),
{
    c.is_whitespace()
}

/// Whether `pattern` stands in `s` at place `i`.
pub open spec fn occurs_at(s: Seq<char>, i: int, pattern: Seq<char>) -> bool {
    0 <= i && i + pattern.len() <= s.len() && s.subrange(i, i + pattern.len()) == pattern
}

/// Whether `pattern` stands somewhere in `s`.
pub open spec fn occurs(s: Seq<char>, pattern: Seq<char>) -> bool {
    exists|i: int| occurs_at(s, i, pattern)
}

/// Whether `pattern` stands in `chars` at place `i`.
pub fn matches_at(chars: &Vec<char>, i: usize, pattern: &Vec<char>) -> (r: bool)
    ensures
        r == occurs_at(chars@, i as int, pattern@),
{
    if pattern.len() > chars.len() || i > chars.len() - pattern.len() {
        return false;
    }
    let mut k: usize = 0;
    while k < pattern.len()
        invariant
            k <= pattern.len(),
            i + pattern.len() <= chars.len(),
            forall|j: int| 0 <= j < k ==> chars@[i + j] == pattern@[j],
        decreases pattern.len() - k,
    {
        if chars[i + k] != pattern[k] {
            assert(chars@.subrange(i as int, i + pattern.len())[k as int] == chars@[i + k]);
            return false;
        }
        k += 1;
    }
    assert(chars@.subrange(i as int, i + pattern.len()) =~= pattern@);
    true
}

/// Whether `pattern` stands somewhere in `chars`.
pub fn contains_chars(chars: &Vec<char>, pattern: &Vec<char>) -> (r: bool)
    ensures
        r == occurs(chars@, pattern@),
{
    let mut i: usize = 0;
    while i < chars.len()
        invariant
            i <= chars.len(),
            forall|j: int| 0 <= j < i ==> !occurs_at(chars@, j, pattern@),
        decreases chars.len() - i,
    {
        if matches_at(chars, i, pattern) {
            return true;
        }
        i += 1;
    }
    matches_at(chars, i, pattern)
}

/// How many characters of `s` stand before the first place where
/// `separator` stands; all of them where it stands nowhere.
pub open spec fn piece_len(s: Seq<char>, separator: Seq<char>) -> int
    decreases s.len(),
{
    if s.len() == 0 || occurs_at(s, 0, separator) {
        0
    } else {
        1 + piece_len(s.drop_first(), separator)
    }
}

/// How many characters at the start of `s` are white space.
pub open spec fn white_start(s: Seq<char>) -> int
    decreases s.len(),
{
    if s.len() > 0 && is_whitespace_char(s[0]) {
        1 + white_start(s.drop_first())
    } else {
        0
    }
}

/// How many characters at the end of `s` are white space.
pub open spec fn white_end(s: Seq<char>) -> int
    decreases s.len(),
{
    if s.len() > 0 && is_whitespace_char(s.last()) {
        1 + white_end(s.drop_last())
    } else {
        0
    }
}

/// `s` without the white space at its start and at its end.
pub open spec fn trimmed(s: Seq<char>) -> Seq<char> {
    if white_start(s) >= s.len() {
        Seq::empty()
    } else {
        s.subrange(white_start(s), s.len() - white_end(s))
    }
}

/// A piece as an item of a list: trimmed, and left out where nothing is
/// left of it.
pub open spec fn item_of(piece: Seq<char>) -> Seq<Seq<char>> {
    if trimmed(piece).len() > 0 {
        seq![trimmed(piece)]
    } else {
        Seq::empty()
    }
}

/// The pieces that `separator` cuts `s` into, each trimmed, the empty ones
/// left out. An empty separator cuts between any two characters.
pub open spec fn split_items(s: Seq<char>, separator: Seq<char>) -> Seq<Seq<char>>
    decreases s.len(),
{
    if separator.len() == 0 {
        if s.len() == 0 {
            Seq::empty()
        } else {
            item_of(seq![s[0]]) + split_items(s.drop_first(), separator)
        }
    } else {
        let n = piece_len(s, separator);
        if n < 0 || n + separator.len() > s.len() {
            item_of(s)
        } else {
            item_of(s.subrange(0, n)) + split_items(
                s.subrange(n + separator.len(), s.len() as int),
                separator,
            )
        }
    }
}

proof fn lemma_piece_len(s: Seq<char>, separator: Seq<char>, n: int)
    requires
        0 <= n <= s.len(),
        forall|j: int| 0 <= j < n ==> !occurs_at(s, j, separator),
        n == s.len() || occurs_at(s, n, separator),
    ensures
        piece_len(s, separator) == n,
    decreases s.len(),
{
    if n > 0 {
        let rest = s.drop_first();
        assert(!occurs_at(s, 0, separator));
        assert forall|j: int| 0 <= j < n - 1 implies !occurs_at(rest, j, separator) by {
            assert(!occurs_at(s, j + 1, separator));
            if j + separator.len() <= rest.len() {
                assert(rest.subrange(j, j + separator.len()) == s.subrange(
                    j + 1,
                    j + 1 + separator.len(),
                ));
            }
        }
        if n < s.len() {
            assert(rest.subrange(n - 1, n - 1 + separator.len()) == s.subrange(
                n,
                n + separator.len(),
            ));
        }
        lemma_piece_len(rest, separator, n - 1);
    } else if s.len() > 0 {
        assert(occurs_at(s, 0, separator));
    }
}

/// A run of white space that ends at `n` is the run that `s` starts with.
pub proof fn lemma_white_start(s: Seq<char>, n: int)
    requires
        0 <= n <= s.len(),
        forall|j: int| 0 <= j < n ==> is_whitespace_char(#[trigger] s[j]),
        n == s.len() || !is_whitespace_char(s[n]),
    ensures
        white_start(s) == n,
    decreases s.len(),
{
    if n > 0 {
        let rest = s.drop_first();
        assert forall|j: int| 0 <= j < n - 1 implies is_whitespace_char(#[trigger] rest[j]) by {
            assert(rest[j] == s[j + 1]);
        }
        lemma_white_start(rest, n - 1);
    }
}

proof fn lemma_white_end(s: Seq<char>, n: int)
    requires
        0 <= n <= s.len(),
        forall|j: int| s.len() - n <= j < s.len() ==> is_whitespace_char(#[trigger] s[j]),
        n == s.len() || !is_whitespace_char(s[s.len() - n - 1]),
    ensures
        white_end(s) == n,
    decreases s.len(),
{
    if n > 0 {
        let rest = s.drop_last();
        assert forall|j: int| rest.len() - (n - 1) <= j < rest.len() implies is_whitespace_char(
            #[trigger] rest[j],
        ) by {
            assert(rest[j] == s[j]);
        }
        lemma_white_end(rest, n - 1);
    }
}

/// The trimmed piece `chars[from..to]`, if anything is left of it.
fn trimmed_item(chars: &Vec<char>, from: usize, to: usize) -> (r: Option<String>)
    requires
        from <= to <= chars.len(),
    ensures
        match r {
            Some(t) => item_of(chars@.subrange(from as int, to as int)) == seq![t@],
            None => item_of(chars@.subrange(from as int, to as int)) == Seq::<Seq<char>>::empty(),
        },
{
    let ghost piece = chars@.subrange(from as int, to as int);
    let mut start: usize = from;
    while start < to && char_is_whitespace(chars[start])
        invariant
            from <= start <= to <= chars.len(),
            piece == chars@.subrange(from as int, to as int),
            forall|j: int| 0 <= j < start - from ==> is_whitespace_char(#[trigger] piece[j]),
        decreases to - start,
    {
        start += 1;
    }
    proof {
        lemma_white_start(piece, start - from);
    }
    if start == to {
        return None;
    }
    let mut end: usize = to;
    while end > start && char_is_whitespace(chars[end - 1])
        invariant
            from <= start < end <= to <= chars.len(),
            piece == chars@.subrange(from as int, to as int),
            forall|j: int| end - from <= j < piece.len() ==> is_whitespace_char(#[trigger] piece[j]),
            !is_whitespace_char(piece[start - from]),
        decreases end - start,
    {
        end -= 1;
    }
    proof {
        lemma_white_end(piece, to - end);
        assert(piece.subrange(start - from, piece.len() - (to - end)) == chars@.subrange(
            start as int,
            end as int,
        ));
    }
    Some(string_of(chars, start, end))
}

/// Cuts `s` at each `separator` and gives the pieces, trimmed, the empty
/// ones left out.
pub fn split_input_to_string(s: &str, separator: &str) -> (r: Vec<String>)
    ensures
        crate::text::texts(r@) == split_items(s@, separator@),
{
    let chars = crate::text::chars_of(s);
    let sep = crate::text::chars_of(separator);
    let n = chars.len();
    let mut out: Vec<String> = Vec::new();
    let mut start: usize = 0;
    proof {
        assert(chars@.subrange(0, n as int) == chars@);
        assert(crate::text::texts(out@) + split_items(chars@, sep@) == split_items(chars@, sep@));
    }
    if sep.len() == 0 {
        while start < n
            invariant
                start <= n,
                n == chars.len(),
                sep@.len() == 0,
                split_items(chars@, sep@) == crate::text::texts(out@) + split_items(
                    chars@.subrange(start as int, n as int),
                    sep@,
                ),
            decreases n - start,
        {
            let ghost rest = chars@.subrange(start as int, n as int);
            let ghost before = crate::text::texts(out@);
            proof {
                assert(rest.drop_first() == chars@.subrange(start as int + 1, n as int));
                assert(seq![rest[0]] == chars@.subrange(start as int, start as int + 1));
            }
            match trimmed_item(&chars, start, start + 1) {
                Some(item) => {
                    out.push(item);
                    assert(crate::text::texts(out@) == before + seq![item@]);
                },
                None => {},
            }
            start += 1;
            proof {
                let tail = split_items(rest.drop_first(), sep@);
                assert(before + (item_of(seq![rest[0]]) + tail) == (before + item_of(seq![rest[0]]))
                    + tail);
            }
        }
        proof {
            assert(chars@.subrange(n as int, n as int) == Seq::<char>::empty());
            assert(crate::text::texts(out@) + Seq::<Seq<char>>::empty() == crate::text::texts(
                out@,
            ));
        }
        return out;
    }
    loop
        invariant
            start <= n,
            n == chars.len(),
            chars@ == s@,
            sep@ == separator@,
            sep@.len() > 0,
            split_items(chars@, sep@) == crate::text::texts(out@) + split_items(
                chars@.subrange(start as int, n as int),
                sep@,
            ),
        decreases n - start,
    {
        let ghost rest = chars@.subrange(start as int, n as int);
        let ghost before = crate::text::texts(out@);
        let mut end: usize = start;
        while end < n && !matches_at(&chars, end, &sep)
            invariant
                start <= end <= n,
                n == chars.len(),
                rest == chars@.subrange(start as int, n as int),
                forall|j: int| 0 <= j < end - start ==> !occurs_at(rest, j, sep@),
            decreases n - end,
        {
            proof {
                let j = end - start;
                if occurs_at(rest, j, sep@) {
                    assert(rest.subrange(j, j + sep@.len()) == chars@.subrange(
                        end as int,
                        end + sep@.len(),
                    ));
                }
            }
            end += 1;
        }
        proof {
            if end < n {
                assert(rest.subrange(end - start, end - start + sep@.len()) == chars@.subrange(
                    end as int,
                    end + sep@.len(),
                ));
            }
            lemma_piece_len(rest, sep@, end - start);
            assert(rest.subrange(0, end - start) == chars@.subrange(start as int, end as int));
            if end == n {
                assert(rest.subrange(0, end - start) == rest);
            }
        }
        match trimmed_item(&chars, start, end) {
            Some(item) => {
                out.push(item);
                assert(crate::text::texts(out@) == before + seq![item@]);
            },
            None => {
                assert(before + Seq::<Seq<char>>::empty() == before);
            },
        }
        assert(crate::text::texts(out@) == before + item_of(rest.subrange(0, end - start)));
        if end == n {
            proof {
                assert(split_items(rest, sep@) == item_of(rest));
            }
            return out;
        }
        proof {
            let after = rest.subrange(end - start + sep@.len(), rest.len() as int);
            assert(after == chars@.subrange(end + sep@.len(), n as int));
            let tail = split_items(after, sep@);
            let head = item_of(rest.subrange(0, end - start));
            assert(before + (head + tail) == (before + head) + tail);
        }
        start = end + sep.len();
    }
}

} // verus!
