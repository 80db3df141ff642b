//! Fixed-width decimal numerals.
//!
//! Cache payloads carry numbers as zero-padded decimal digit runs of a
//! known width, so that a reader can find every field by position alone.
//! This module defines the numeral form, its value, and the proofs that
//! the two are inverse to each other.

use vstd::prelude::*;

verus! {

/// Ten to the power `w`.
pub open spec fn pow10(w: nat) -> int
    decreases w,
{
    if w == 0 {
        1
    } else {
        10 * pow10((w - 1) as nat)
    }
}

/// The decimal digit character for a value in `0 ..= 9`.
pub open spec fn digit_char(d: int) -> char {
    if d == 0 {
        '0'
    } else if d == 1 {
        '1'
    } else if d == 2 {
        '2'
    } else if d == 3 {
        '3'
    } else if d == 4 {
        '4'
    } else if d == 5 {
        '5'
    } else if d == 6 {
        '6'
    } else if d == 7 {
        '7'
    } else if d == 8 {
        '8'
    } else {
        '9'
    }
}

/// The value of a decimal digit character, or `-1` for any other character.
pub open spec fn digit_val(c: char) -> int {
    if c == '0' {
        0
    } else if c == '1' {
        1
    } else if c == '2' {
        2
    } else if c == '3' {
        3
    } else if c == '4' {
        4
    } else if c == '5' {
        5
    } else if c == '6' {
        6
    } else if c == '7' {
        7
    } else if c == '8' {
        8
    } else if c == '9' {
        9
    } else {
        -1
    }
}

pub open spec fn is_digit(c: char) -> bool {
    digit_val(c) >= 0
}

pub open spec fn all_digits(s: Seq<char>) -> bool {
    forall|i: int| 0 <= i < s.len() ==> is_digit(#[trigger] s[i])
}

/// `n` written as exactly `w` decimal digits, most significant first.
pub open spec fn padded(n: int, w: nat) -> Seq<char>
    decreases w,
{
    if w == 0 {
        Seq::empty()
    } else {
        padded(n / 10, (w - 1) as nat).push(digit_char(n % 10))
    }
}

/// The number a run of digit characters denotes.
pub open spec fn digits_val(s: Seq<char>) -> int
    decreases s.len(),
{
    if s.len() == 0 {
        0
    } else {
        10 * digits_val(s.drop_last()) + digit_val(s.last())
    }
}

pub proof fn lemma_pow10_pos(w: nat)
    ensures
        pow10(w) >= 1,
    decreases w,
{
    if w > 0 {
        lemma_pow10_pos((w - 1) as nat);
    }
}

pub proof fn lemma_pow10_monotone(w1: nat, w2: nat)
    requires
        w1 <= w2,
    ensures
        pow10(w1) <= pow10(w2),
    decreases w2,
{
    if w1 < w2 {
        lemma_pow10_monotone(w1, (w2 - 1) as nat);
        lemma_pow10_pos((w2 - 1) as nat);
    }
}

pub proof fn lemma_pow10_values()
    ensures
        pow10(2) == 100,
        pow10(4) == 10_000,
        pow10(8) == 100_000_000,
        pow10(10) == 10_000_000_000,
        pow10(12) == 1_000_000_000_000,
{
    assert(pow10(0) == 1);
    assert(pow10(1) == 10);
    assert(pow10(2) == 100);
    assert(pow10(3) == 1000);
    assert(pow10(4) == 10000);
    assert(pow10(5) == 100000);
    assert(pow10(6) == 1000000);
    assert(pow10(7) == 10000000);
    assert(pow10(8) == 100000000);
    assert(pow10(9) == 1000000000);
    assert(pow10(10) == 10000000000);
    assert(pow10(11) == 100000000000);
    assert(pow10(12) == 1000000000000);
}

pub proof fn lemma_padded_len(n: int, w: nat)
    ensures
        padded(n, w).len() == w,
    decreases w,
{
    if w > 0 {
        lemma_padded_len(n / 10, (w - 1) as nat);
    }
}

pub proof fn lemma_padded_digits(n: int, w: nat)
    requires
        n >= 0,
    ensures
        all_digits(padded(n, w)),
    decreases w,
{
    if w > 0 {
        lemma_padded_digits(n / 10, (w - 1) as nat);
        let p = padded(n / 10, (w - 1) as nat);
        let c = digit_char(n % 10);
        assert(0 <= n % 10 < 10);
        assert(is_digit(c));
        assert forall|i: int| 0 <= i < padded(n, w).len() implies is_digit(
            #[trigger] padded(n, w)[i],
        ) by {
            if i < p.len() {
                assert(padded(n, w)[i] == p[i]);
            } else {
                assert(padded(n, w)[i] == c);
            }
        }
    }
}

/// A numeral denotes the number it was written from.
pub proof fn lemma_val_padded(n: int, w: nat)
    requires
        0 <= n < pow10(w),
    ensures
        digits_val(padded(n, w)) == n,
    decreases w,
{
    if w == 0 {
        assert(n == 0);
    } else {
        let p = padded(n / 10, (w - 1) as nat);
        lemma_padded_len(n / 10, (w - 1) as nat);
        assert(n / 10 < pow10((w - 1) as nat)) by (nonlinear_arith)
            requires
                n >= 0,
                n < 10 * pow10((w - 1) as nat),
        ;
        lemma_val_padded(n / 10, (w - 1) as nat);
        let whole = padded(n, w);
        assert(whole.drop_last() =~= p);
        assert(whole.last() == digit_char(n % 10));
        assert(digit_val(digit_char(n % 10)) == n % 10);
        assert(digits_val(whole) == 10 * (n / 10) + n % 10);
    }
}

/// Every run of digits is the numeral of its own value.
pub proof fn lemma_digits_complete(s: Seq<char>)
    requires
        all_digits(s),
    ensures
        0 <= digits_val(s) < pow10(s.len()),
        padded(digits_val(s), s.len()) =~= s,
    decreases s.len(),
{
    if s.len() == 0 {
    } else {
        let front = s.drop_last();
        assert(all_digits(front)) by {
            assert(forall|i: int|
                0 <= i < front.len() ==> front[i] == #[trigger] s[i] && is_digit(s[i]));
        }
        lemma_digits_complete(front);
        let c = s.last();
        assert(is_digit(c));
        let d = digit_val(c);
        assert(0 <= d < 10);
        let v = digits_val(s);
        let vf = digits_val(front);
        assert(v == 10 * vf + d);
        assert(v < pow10(s.len())) by (nonlinear_arith)
            requires
                v == 10 * vf + d,
                d < 10,
                vf < pow10(front.len()),
                pow10(s.len()) == 10 * pow10(front.len()),
                front.len() == s.len() - 1,
        ;
        assert(v / 10 == vf && v % 10 == d) by (nonlinear_arith)
            requires
                v == 10 * vf + d,
                0 <= d < 10,
                0 <= vf,
        ;
        assert(digit_char(d) == c);
        assert(padded(v, s.len()) =~= s) by {
            assert(padded(v, s.len()) == padded(vf, front.len()).push(digit_char(d)));
        }
    }
}

/// Two numerals of the same width denote the same number only when equal.
pub proof fn lemma_padded_injective(a: int, b: int, w: nat)
    requires
        0 <= a < pow10(w),
        0 <= b < pow10(w),
        padded(a, w) == padded(b, w),
    ensures
        a == b,
{
    lemma_val_padded(a, w);
    lemma_val_padded(b, w);
}

/// The one-character string for a decimal digit.
pub fn digit_str(d: u64) -> (r: &'static str)
    requires
        d < 10,
    ensures
        r@ =~= seq![digit_char(d as int)],
{
    let r: &'static str = if d == 0 {
        "0"
    } else if d == 1 {
        "1"
    } else if d == 2 {
        "2"
    } else if d == 3 {
        "3"
    } else if d == 4 {
        "4"
    } else if d == 5 {
        "5"
    } else if d == 6 {
        "6"
    } else if d == 7 {
        "7"
    } else if d == 8 {
        "8"
    } else {
        "9"
    };
    proof {
        reveal_strlit("0");
        reveal_strlit("1");
        reveal_strlit("2");
        reveal_strlit("3");
        reveal_strlit("4");
        reveal_strlit("5");
        reveal_strlit("6");
        reveal_strlit("7");
        reveal_strlit("8");
        reveal_strlit("9");
    }
    r
}

/// Append `n` to `out` as exactly `w` decimal digits.
pub fn push_padded(out: &mut String, n: u64, w: usize)
    requires
        n < pow10(w as nat),
    ensures
        final(out)@ == old(out)@ + padded(n as int, w as nat),
    decreases w,
{
    if w == 0 {
        proof {
            assert(old(out)@ + padded(n as int, 0) =~= old(out)@);
        }
    } else {
        proof {
            assert((n / 10) as int == n as int / 10);
            assert(n as int / 10 < pow10((w - 1) as nat)) by (nonlinear_arith)
                requires
                    n as int >= 0,
                    (n as int) < 10 * pow10((w - 1) as nat),
            ;
        }
        push_padded(out, n / 10, w - 1);
        let d = n % 10;
        let ds = digit_str(d);
        out.append(ds);
        proof {
            assert((n % 10) as int == n as int % 10);
            assert(final(out)@ =~= old(out)@ + padded(n as int, w as nat));
        }
    }
}

/// Read the `w` characters of `s` starting at `start` as a decimal numeral.
///
/// Returns the denoted value, or `None` when any of those characters is
/// not a decimal digit.
pub fn parse_padded(s: &str, start: usize, w: usize) -> (r: Option<u64>)
    requires
        start + w <= s@.len(),
        w <= 12,
    ensures
        ({
            let sub = s@.subrange(start as int, start as int + w as int);
            match r {
                Some(v) => all_digits(sub) && v as int == digits_val(sub) && sub =~= padded(
                    v as int,
                    w as nat,
                ) && v < pow10(w as nat),
                None => !all_digits(sub),
            }
        }),
{
    let ghost sub = s@.subrange(start as int, start as int + w as int);
    let total = s.unicode_len();
    let mut acc: u64 = 0;
    let mut i: usize = 0;
    while i < w
        invariant
            0 <= i <= w,
            w <= 12,
            start + w <= total,
            total == s@.len(),
            sub == s@.subrange(start as int, start as int + w as int),
            all_digits(sub.subrange(0, i as int)),
            acc as int == digits_val(sub.subrange(0, i as int)),
            (acc as int) < pow10(i as nat),
        decreases w - i,
    {
        let c = s.get_char(start + i);
        proof {
            assert(c == sub[i as int]);
        }
        let d: u64 = match c {
            '0' => 0,
            '1' => 1,
            '2' => 2,
            '3' => 3,
            '4' => 4,
            '5' => 5,
            '6' => 6,
            '7' => 7,
            '8' => 8,
            '9' => 9,
            _ => {
                proof {
                    assert(!is_digit(sub[i as int]));
                }
                return None;
            },
        };
        proof {
            assert(d as int == digit_val(c));
            lemma_pow10_monotone(i as nat, 11);
            lemma_pow10_values();
            assert(pow10(11) * 10 == pow10(12));
            assert(acc as int * 10 + d < pow10(12)) by (nonlinear_arith)
                requires
                    (acc as int) < pow10(11 as nat),
                    0 <= d < 10,
                    pow10(11) * 10 == pow10(12),
                    acc as int >= 0,
            ;
        }
        let next = acc * 10 + d;
        proof {
            let pre = sub.subrange(0, i as int);
            let cur = sub.subrange(0, i as int + 1);
            assert(cur.drop_last() =~= pre);
            assert(cur.last() == sub[i as int]);
            assert(all_digits(cur)) by {
                assert(forall|j: int| 0 <= j < cur.len() ==> cur[j] == #[trigger] sub[j]);
            }
            assert(digits_val(cur) == 10 * digits_val(pre) + digit_val(c));
            lemma_digits_complete(cur);
        }
        acc = next;
        i = i + 1;
    }
    proof {
        assert(sub.subrange(0, w as int) =~= sub);
        lemma_digits_complete(sub);
        lemma_padded_len(acc as int, w as nat);
    }
    Some(acc)
}

} // verus!
