//! Text helpers over sequences of characters: comparison, cutting a text at
//! a separator, and decimal numbers.

use vstd::prelude::*;
use vstd::std_specs::iter::IteratorSpec;
use vstd::string::StringExecFns;

verus! {

/// What follows the last `c` in `s`; all of `s` where `c` does not occur.
pub open spec fn suffix_after_last(s: Seq<char>, c: char) -> Seq<char>
    decreases s.len(),
{
    if s.len() == 0 || s.last() == c {
        Seq::empty()
    } else {
        suffix_after_last(s.drop_last(), c).push(s.last())
    }
}

/// What precedes the first `c` in `s`; all of `s` where `c` does not occur.
pub open spec fn prefix_before_first(s: Seq<char>, c: char) -> Seq<char>
    decreases s.len(),
{
    if s.len() == 0 || s[0] == c {
        Seq::empty()
    } else {
        seq![s[0]] + prefix_before_first(s.drop_first(), c)
    }
}

/// What follows the first `c` in `s`, where `c` occurs.
pub open spec fn rest_after_first(s: Seq<char>, c: char) -> Seq<char> {
    s.skip(prefix_before_first(s, c).len() as int + 1)
}

/// The character that writes the digit `d`.
pub open spec fn digit_char(d: nat) -> char {
    if d == 0 {
        '0'
    } else if d == 1 {
        '1'
    } else if d == 2 {
        '2'
    } else if d == 3 {
        '3'
    } else if d == 4 {
        '4'
    } else if d == 5 {
        '5'
    } else if d == 6 {
        '6'
    } else if d == 7 {
        '7'
    } else if d == 8 {
        '8'
    } else {
        '9'
    }
}

/// The digit that `c` writes, if it writes one.
pub open spec fn digit_of(c: char) -> Option<nat> {
    if c == '0' {
        Some(0)
    } else if c == '1' {
        Some(1)
    } else if c == '2' {
        Some(2)
    } else if c == '3' {
        Some(3)
    } else if c == '4' {
        Some(4)
    } else if c == '5' {
        Some(5)
    } else if c == '6' {
        Some(6)
    } else if c == '7' {
        Some(7)
    } else if c == '8' {
        Some(8)
    } else if c == '9' {
        Some(9)
    } else {
        None
    }
}

/// The decimal numeral of `n`, without leading zeros.
pub open spec fn decimal(n: nat) -> Seq<char>
    decreases n,
{
    if n < 10 {
        seq![digit_char(n)]
    } else {
        decimal(n / 10).push(digit_char(n % 10))
    }
}

/// The number that the digits of `s` write, most significant first; `None`
/// where some character of `s` is no digit. The empty text writes zero.
pub open spec fn digits_value(s: Seq<char>) -> Option<nat>
    decreases s.len(),
{
    if s.len() == 0 {
        Some(0)
    } else {
        match (digits_value(s.drop_last()), digit_of(s.last())) {
            (Some(high), Some(low)) => Some(high * 10 + low),
            _ => None,
        }
    }
}

/// The size in pixels that `s` writes: one or more decimal digits, an
/// optional `+` before them, and a value that fits in 32 bits.
pub open spec fn dimension_value(s: Seq<char>) -> Option<u32> {
    let digits = if s.len() > 0 && s[0] == '+' {
        s.drop_first()
    } else {
        s
    };
    match digits_value(digits) {
        Some(v) => if digits.len() > 0 && v <= u32::MAX {
            Some(v as u32)
        } else {
            None
        },
        None => None,
    }
}

/// Behind a `c`, a text without `c` is the suffix after the last `c`.
pub proof fn lemma_suffix_after_separator(head: Seq<char>, c: char, tail: Seq<char>)
    requires
        !tail.contains(c),
    ensures
        suffix_after_last(head.push(c) + tail, c) == tail,
    decreases tail.len(),
{
    let s = head.push(c) + tail;
    if tail.len() == 0 {
        assert(s == head.push(c));
    } else {
        assert(s.last() == tail.last());
        assert(tail.contains(tail.last())) by {
            assert(tail[tail.len() - 1] == tail.last());
        }
        assert(s.drop_last() == head.push(c) + tail.drop_last());
        assert forall|x: char| tail.drop_last().contains(x) implies tail.contains(x) by {
            let i = choose|i: int| 0 <= i < tail.drop_last().len() && tail.drop_last()[i] == x;
            assert(tail[i] == x);
        }
        lemma_suffix_after_separator(head, c, tail.drop_last());
        assert(tail.drop_last().push(tail.last()) == tail);
    }
}

/// Before a `c`, a text without `c` is the prefix before the first `c`.
pub proof fn lemma_prefix_before_separator(head: Seq<char>, c: char, tail: Seq<char>)
    requires
        !head.contains(c),
    ensures
        prefix_before_first(head.push(c) + tail, c) == head,
    decreases head.len(),
{
    let s = head.push(c) + tail;
    if head.len() == 0 {
        assert(s[0] == c);
    } else {
        assert(s[0] == head[0]);
        assert(head.contains(head[0]));
        assert(s.drop_first() == head.drop_first().push(c) + tail);
        assert forall|x: char| head.drop_first().contains(x) implies head.contains(x) by {
            let i = choose|i: int| 0 <= i < head.drop_first().len() && head.drop_first()[i] == x;
            assert(head[i + 1] == x);
        }
        lemma_prefix_before_separator(head.drop_first(), c, tail);
        assert(seq![head[0]] + head.drop_first() == head);
    }
}

/// A text without `c` is its own prefix before the first `c`.
pub proof fn lemma_prefix_without(s: Seq<char>, c: char)
    requires
        !s.contains(c),
    ensures
        prefix_before_first(s, c) == s,
    decreases s.len(),
{
    if s.len() > 0 {
        assert(s.contains(s[0]));
        assert forall|x: char| s.drop_first().contains(x) implies s.contains(x) by {
            let i = choose|i: int| 0 <= i < s.drop_first().len() && s.drop_first()[i] == x;
            assert(s[i + 1] == x);
        }
        lemma_prefix_without(s.drop_first(), c);
        assert(seq![s[0]] + s.drop_first() == s);
    }
}

/// Whether two texts hold the same characters.
pub fn same_text(a: &str, b: &str) -> (same: bool)
    ensures
        same == (a@ == b@),
{
    broadcast use vstd::string::group_string_axioms;

    let mut left = a.chars();
    let mut right = b.chars();
    let ghost mut seen: int = 0;
    loop
        invariant
            0 <= seen <= a@.len(),
            seen <= b@.len(),
            left.remaining() == a@.skip(seen),
            right.remaining() == b@.skip(seen),
            a@.take(seen) == b@.take(seen),
        decreases a@.len() - seen,
    {
        let x = left.next();
        let y = right.next();
        match (x, y) {
            (None, None) => {
                assert(a@ == a@.take(seen));
                assert(b@ == b@.take(seen));
                return true;
            },
            (Some(p), Some(q)) => {
                if p != q {
                    assert(a@[seen] != b@[seen]);
                    return false;
                }
                assert(a@.take(seen + 1) == a@.take(seen).push(a@[seen]));
                assert(b@.take(seen + 1) == b@.take(seen).push(b@[seen]));
                assert(a@.skip(seen).drop_first() == a@.skip(seen + 1));
                assert(b@.skip(seen).drop_first() == b@.skip(seen + 1));
            },
            _ => {
                assert(a@.len() != b@.len());
                return false;
            },
        }
        proof {
            seen = seen + 1;
        }
    }
}

/// The part of `s` behind its last `c`; all of `s` where `c` does not occur.
pub fn after_last<'a>(s: &'a str, c: char) -> (tail: &'a str)
    ensures
        tail@ == suffix_after_last(s@, c),
{
    broadcast use vstd::string::group_string_axioms;

    let n = s.unicode_len();
    let mut start: usize = 0;
    let mut i: usize = 0;
    let mut rest = s.chars();
    loop
        invariant
            n == s@.len(),
            start <= i <= n,
            rest.remaining() == s@.skip(i as int),
            suffix_after_last(s@.take(i as int), c) == s@.subrange(start as int, i as int),
        decreases n - i,
    {
        match rest.next() {
            None => {
                assert(s@.take(i as int) == s@);
                return s.substring_char(start, n);
            },
            Some(ch) => {
                assert(ch == s@[i as int]);
                assert(s@.skip(i as int).drop_first() == s@.skip(i + 1));
                assert(s@.take(i + 1).drop_last() == s@.take(i as int));
                i = i + 1;
                if ch == c {
                    start = i;
                }
            },
        }
    }
}

/// The part of `s` before its first `c`; all of `s` where `c` does not occur.
pub fn before_first<'a>(s: &'a str, c: char) -> (head: &'a str)
    ensures
        head@ == prefix_before_first(s@, c),
{
    broadcast use vstd::string::group_string_axioms;

    let n = s.unicode_len();
    let mut i: usize = 0;
    let mut rest = s.chars();
    loop
        invariant
            n == s@.len(),
            i <= n,
            rest.remaining() == s@.skip(i as int),
            !s@.take(i as int).contains(c),
        decreases n - i,
    {
        match rest.next() {
            None => {
                assert(s@.take(i as int) == s@);
                proof {
                    lemma_prefix_without(s@, c);
                }
                assert(s@.subrange(0, n as int) == s@);
                return s.substring_char(0, n);
            },
            Some(ch) => {
                assert(ch == s@[i as int]);
                if ch == c {
                    proof {
                        lemma_prefix_before_separator(s@.take(i as int), c, s@.skip(i + 1));
                        assert(s@.take(i as int).push(c) + s@.skip(i + 1) == s@);
                    }
                    return s.substring_char(0, i);
                }
                assert(s@.skip(i as int).drop_first() == s@.skip(i + 1));
                let ghost longer = s@.take(i + 1);
                assert(longer == s@.take(i as int).push(ch));
                assert forall|j: int| 0 <= j < longer.len() implies longer[j] != c by {
                    if j < i {
                        assert(s@.take(i as int).contains(s@.take(i as int)[j]));
                    }
                }
                i = i + 1;
            },
        }
    }
}

/// Cuts `s` at its first `c`: what stands before it and what follows it.
/// `None` where `c` does not occur.
pub fn split_at_first<'a>(s: &'a str, c: char) -> (parts: Option<(&'a str, &'a str)>)
    ensures
        match parts {
            Some((head, tail)) => {
                &&& s@.contains(c)
                &&& head@ == prefix_before_first(s@, c)
                &&& tail@ == rest_after_first(s@, c)
                &&& s@ == head@.push(c) + tail@
            },
            None => !s@.contains(c),
        },
{
    broadcast use vstd::string::group_string_axioms;

    let n = s.unicode_len();
    let mut i: usize = 0;
    let mut rest = s.chars();
    loop
        invariant
            n == s@.len(),
            i <= n,
            rest.remaining() == s@.skip(i as int),
            !s@.take(i as int).contains(c),
        decreases n - i,
    {
        match rest.next() {
            None => {
                assert(s@.take(i as int) == s@);
                return None;
            },
            Some(ch) => {
                assert(ch == s@[i as int]);
                if ch == c {
                    proof {
                        lemma_prefix_before_separator(s@.take(i as int), c, s@.skip(i + 1));
                        assert(s@.take(i as int).push(c) + s@.skip(i + 1) == s@);
                        assert(s@.subrange(i + 1, n as int) == s@.skip(i + 1));
                    }
                    return Some((s.substring_char(0, i), s.substring_char(i + 1, n)));
                }
                assert(s@.skip(i as int).drop_first() == s@.skip(i + 1));
                let ghost longer = s@.take(i + 1);
                assert(longer == s@.take(i as int).push(ch));
                assert forall|j: int| 0 <= j < longer.len() implies longer[j] != c by {
                    if j < i {
                        assert(s@.take(i as int).contains(s@.take(i as int)[j]));
                    }
                }
                i = i + 1;
            },
        }
    }
}

/// The text that writes one digit.
fn digit_text(d: u64) -> (text: &'static str)
    requires
        d < 10,
    ensures
        text@ == seq![digit_char(d as nat)],
{
    proof {
        reveal_strlit("0");
        reveal_strlit("1");
        reveal_strlit("2");
        reveal_strlit("3");
        reveal_strlit("4");
        reveal_strlit("5");
        reveal_strlit("6");
        reveal_strlit("7");
        reveal_strlit("8");
        reveal_strlit("9");
    }
    let text = if d == 0 {
        "0"
    } else if d == 1 {
        "1"
    } else if d == 2 {
        "2"
    } else if d == 3 {
        "3"
    } else if d == 4 {
        "4"
    } else if d == 5 {
        "5"
    } else if d == 6 {
        "6"
    } else if d == 7 {
        "7"
    } else if d == 8 {
        "8"
    } else {
        "9"
    };
    assert(text@ =~= seq![digit_char(d as nat)]);
    text
}

/// Appends the decimal numeral of `n` to `out`.
pub fn push_decimal(out: &mut String, n: u64)
    ensures
        final(out)@ == old(out)@ + decimal(n as nat),
    decreases n,
{
    if n >= 10 {
        push_decimal(out, n / 10);
    }
    out.append(digit_text(n % 10));
    assert(final(out)@ == old(out)@ + decimal(n as nat)) by {
        if n >= 10 {
            assert(old(out)@ + decimal((n / 10) as nat) + seq![digit_char((n % 10) as nat)]
                == old(out)@ + decimal((n / 10) as nat).push(digit_char((n % 10) as nat)));
        }
    }
}

/// The decimal numeral of `i`, with `-` before it where `i` is negative.
pub open spec fn signed_decimal(i: int) -> Seq<char> {
    if i < 0 {
        seq!['-'] + decimal((-i) as nat)
    } else {
        decimal(i as nat)
    }
}

/// Appends the decimal numeral of `i` to `out`, with `-` before it where
/// `i` is negative.
pub fn push_signed_decimal(out: &mut String, i: i64)
    ensures
        final(out)@ == old(out)@ + signed_decimal(i as int),
{
    if i < 0 {
        proof {
            reveal_strlit("-");
        }
        out.append("-");
        assert("-"@ =~= seq!['-']);
        let magnitude: u64 = if i == i64::MIN {
            9223372036854775808u64
        } else {
            (-i) as u64
        };
        push_decimal(out, magnitude);
        assert(final(out)@ == old(out)@ + signed_decimal(i as int)) by {
            assert(old(out)@ + seq!['-'] + decimal(magnitude as nat) == old(out)@ + (seq!['-']
                + decimal(magnitude as nat)));
        }
    } else {
        push_decimal(out, i as u64);
    }
}

/// The digit that `c` writes.
fn digit_value(c: char) -> (d: Option<u64>)
    ensures
        match d {
            Some(v) => digit_of(c) == Some(v as nat) && v < 10,
            None => digit_of(c) is None,
        },
{
    if c == '0' {
        Some(0)
    } else if c == '1' {
        Some(1)
    } else if c == '2' {
        Some(2)
    } else if c == '3' {
        Some(3)
    } else if c == '4' {
        Some(4)
    } else if c == '5' {
        Some(5)
    } else if c == '6' {
        Some(6)
    } else if c == '7' {
        Some(7)
    } else if c == '8' {
        Some(8)
    } else if c == '9' {
        Some(9)
    } else {
        None
    }
}

/// Digits written behind a text never lower the number that it writes, and a
/// text with a character that is no digit writes no number whatever follows.
proof fn lemma_digits_grow(s: Seq<char>, k: int)
    requires
        0 <= k <= s.len(),
    ensures
        digits_value(s.take(k)) is None ==> digits_value(s) is None,
        digits_value(s) is Some ==> digits_value(s.take(k))->0 <= digits_value(s)->0,
    decreases s.len() - k,
{
    if k == s.len() {
        assert(s.take(k) == s);
    } else {
        lemma_digits_grow(s, k + 1);
        assert(s.take(k + 1).drop_last() == s.take(k));
    }
}

/// Reads a size in pixels: decimal digits, with an optional `+` before them.
pub fn parse_dimension(s: &str) -> (size: Option<u32>)
    ensures
        size == dimension_value(s@),
{
    broadcast use vstd::string::group_string_axioms;

    let n = s.unicode_len();
    let mut i: usize = 0;
    let mut signed = false;
    let mut value: u64 = 0;
    let mut rest = s.chars();
    let ghost digits = if s@.len() > 0 && s@[0] == '+' {
        s@.drop_first()
    } else {
        s@
    };
    loop
        invariant
            n == s@.len(),
            i <= n,
            rest.remaining() == s@.skip(i as int),
            digits == if s@.len() > 0 && s@[0] == '+' {
                s@.drop_first()
            } else {
                s@
            },
            signed == (i > 0 && s@[0] == '+'),
            i == 0 ==> value == 0,
            i > 0 ==> digits_value(digits.take(i - if signed { 1int } else { 0int })) == Some(
                value as nat,
            ),
            value <= u32::MAX,
        decreases n - i,
    {
        let ghost offset = if signed { 1int } else { 0int };
        match rest.next() {
            None => {
                assert(i == n);
                if i == 0 {
                    assert(digits.len() == 0);
                    return None;
                }
                assert(digits.take(i - offset) == digits);
                if signed && i == 1 {
                    return None;
                }
                return Some(value as u32);
            },
            Some(ch) => {
                assert(ch == s@[i as int]);
                assert(s@.skip(i as int).drop_first() == s@.skip(i + 1));
                if i == 0 && ch == '+' {
                    signed = true;
                    assert(digits.take(0) =~= Seq::<char>::empty());
                } else {
                    assert(digits[i - offset] == ch);
                    assert(digits.take(i - offset + 1).drop_last() == digits.take(i - offset));
                    if i == 0 {
                        assert(digits.take(0) =~= Seq::<char>::empty());
                    }
                    match digit_value(ch) {
                        None => {
                            proof {
                                lemma_digits_grow(digits, i - offset + 1);
                            }
                            return None;
                        },
                        Some(d) => {
                            let next = value * 10 + d;
                            if next > u32::MAX as u64 {
                                proof {
                                    lemma_digits_grow(digits, i - offset + 1);
                                }
                                return None;
                            }
                            value = next;
                        },
                    }
                }
                i = i + 1;
            },
        }
    }
}

} // verus!
