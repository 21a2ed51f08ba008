//! Numbers as text: the decimal and the hexadecimal digits of a natural
//! number, and the reader for decimal numbers. A number has one written form,
//! without leading zeros, and the reader accepts no other.
use crate::text::{hex_digit, hex_digit_of};
use vstd::prelude::*;

verus! {

/// The decimal digit for a value below ten.
pub open spec fn digit_char(n: nat) -> char
    recommends
        n < 10,
{
    ((48 + n) as u8) as char
}

/// The decimal digits of `n`, most significant first.
pub open spec fn decimal(n: nat) -> Seq<char>
    decreases n,
{
    if n < 10 {
        seq![digit_char(n)]
    } else {
        decimal(n / 10).push(digit_char(n % 10))
    }
}

/// The lower-case hexadecimal digits of `n`, most significant first.
pub open spec fn hexadecimal(n: nat) -> Seq<char>
    decreases n,
{
    if n < 16 {
        seq![hex_digit(n as int)]
    } else {
        hexadecimal(n / 16).push(hex_digit((n % 16) as int))
    }
}

pub open spec fn is_digit(c: char) -> bool {
    '0' <= c <= '9'
}

pub open spec fn digit_value(c: char) -> nat {
    if is_digit(c) {
        (c as u32 - 48) as nat
    } else {
        0
    }
}

/// How many decimal digits stand at the front of `t`.
pub open spec fn digit_run(t: Seq<char>) -> nat
    decreases t.len(),
{
    if t.len() > 0 && is_digit(t[0]) {
        1 + digit_run(t.skip(1))
    } else {
        0
    }
}

/// The number that a sequence of decimal digits denotes.
pub open spec fn digits_value(d: Seq<char>) -> nat
    decreases d.len(),
{
    if d.len() == 0 {
        0
    } else {
        10 * digits_value(d.drop_last()) + digit_value(d.last())
    }
}

/// Reads a decimal number from the front of `t`: all the digits that stand
/// there, at least one, and no leading zero. Gives the number and what follows.
pub open spec fn parse_decimal(t: Seq<char>) -> Option<(nat, Seq<char>)> {
    let k = digit_run(t) as int;
    if k == 0 || (k > 1 && t[0] == '0') {
        None
    } else {
        Some((digits_value(t.take(k)), t.skip(k)))
    }
}

/// Reads a decimal number that fits in 32 bits.
pub open spec fn parse_u32(t: Seq<char>) -> Option<(u32, Seq<char>)> {
    match parse_decimal(t) {
        Some((n, rest)) => if n <= u32::MAX {
            Some((n as u32, rest))
        } else {
            None
        },
        None => None,
    }
}

pub open spec fn all_digits(d: Seq<char>) -> bool {
    forall|j: int| 0 <= j < d.len() ==> is_digit(#[trigger] d[j])
}

proof fn lemma_digit_run_bounds(t: Seq<char>)
    ensures
        digit_run(t) <= t.len(),
        all_digits(t.take(digit_run(t) as int)),
        digit_run(t) < t.len() ==> !is_digit(t[digit_run(t) as int]),
    decreases t.len(),
{
    if t.len() > 0 && is_digit(t[0]) {
        lemma_digit_run_bounds(t.skip(1));
        let k = digit_run(t) as int;
        assert forall|j: int| 0 <= j < k implies is_digit(#[trigger] t.take(k)[j]) by {
            if j > 0 {
                assert(t.take(k)[j] == t.skip(1).take(k - 1)[j - 1]);
            }
        }
    }
}

proof fn lemma_digit_run_is(t: Seq<char>, k: int)
    requires
        0 <= k <= t.len(),
        all_digits(t.take(k)),
        k == t.len() || !is_digit(t[k]),
    ensures
        digit_run(t) == k,
    decreases k,
{
    if k > 0 {
        assert(t.take(k)[0] == t[0]);
        assert forall|j: int| 0 <= j < k - 1 implies is_digit(#[trigger] t.skip(1).take(k - 1)[j]) by {
            assert(t.skip(1).take(k - 1)[j] == t.take(k)[j + 1]);
        }
        lemma_digit_run_is(t.skip(1), k - 1);
    }
}

proof fn lemma_digit_run_at_least(t: Seq<char>, k: int)
    requires
        0 <= k <= t.len(),
        all_digits(t.take(k)),
    ensures
        digit_run(t) >= k,
    decreases k,
{
    if k > 0 {
        assert(t.take(k)[0] == t[0]);
        assert forall|j: int| 0 <= j < k - 1 implies is_digit(#[trigger] t.skip(1).take(k - 1)[j]) by {
            assert(t.skip(1).take(k - 1)[j] == t.take(k)[j + 1]);
        }
        lemma_digit_run_at_least(t.skip(1), k - 1);
    }
}

proof fn lemma_digits_value_grows(d: Seq<char>, j: int)
    requires
        0 <= j <= d.len(),
    ensures
        digits_value(d.take(j)) <= digits_value(d),
    decreases d.len(),
{
    if j < d.len() {
        lemma_digits_value_grows(d.drop_last(), j);
        assert(d.drop_last().take(j) =~= d.take(j));
    } else {
        assert(d.take(j) =~= d);
    }
}

proof fn lemma_numeral_shape(n: nat)
    ensures
        decimal(n).len() >= 1,
        all_digits(decimal(n)),
        n >= 1 ==> decimal(n)[0] != '0',
        n == 0 ==> decimal(n) =~= seq!['0'],
        digits_value(decimal(n)) == n,
    decreases n,
{
    let d = decimal(n);
    if n < 10 {
        assert(d.drop_last() =~= Seq::<char>::empty());
        assert(digits_value(d.drop_last()) == 0);
    } else {
        lemma_numeral_shape(n / 10);
        assert(d.drop_last() =~= decimal(n / 10));
        assert(d.last() == digit_char(n % 10));
        assert(d[0] == decimal(n / 10)[0]);
    }
}

proof fn lemma_value_positive(d: Seq<char>)
    requires
        d.len() >= 1,
        all_digits(d),
        d[0] != '0',
    ensures
        digits_value(d) >= 1,
    decreases d.len(),
{
    if d.len() > 1 {
        assert forall|j: int| 0 <= j < d.len() - 1 implies is_digit(#[trigger] d.drop_last()[j]) by {
            assert(d.drop_last()[j] == d[j]);
        }
        lemma_value_positive(d.drop_last());
        assert(digits_value(d) >= 10 * digits_value(d.drop_last()));
    } else {
        assert(d.last() == d[0]);
        assert(is_digit(d[0]));
        assert(digit_value(d[0]) >= 1);
    }
}

proof fn lemma_numeral_of_digits(d: Seq<char>)
    requires
        d.len() >= 1,
        all_digits(d),
        d.len() == 1 || d[0] != '0',
    ensures
        decimal(digits_value(d)) == d,
    decreases d.len(),
{
    let c = d.last();
    assert(is_digit(c));
    assert(digit_char(digit_value(c)) == c);
    if d.len() == 1 {
        assert(d.drop_last() =~= Seq::<char>::empty());
        assert(digits_value(d.drop_last()) == 0);
        assert(decimal(digits_value(d)) =~= d);
    } else {
        let p = d.drop_last();
        assert forall|j: int| 0 <= j < p.len() implies is_digit(#[trigger] p[j]) by {
            assert(p[j] == d[j]);
        }
        assert(p[0] == d[0]);
        lemma_value_positive(p);
        lemma_numeral_of_digits(p);
        let v = digits_value(d);
        assert(v == 10 * digits_value(p) + digit_value(c));
        assert(v / 10 == digits_value(p));
        assert(v % 10 == digit_value(c));
        assert(decimal(v) =~= d);
    }
}

/// Reading back a written number gives the number, and leaves what follows,
/// as long as no digit follows.
pub proof fn lemma_parse_decimal(n: nat, rest: Seq<char>)
    requires
        rest.len() == 0 || !is_digit(rest[0]),
    ensures
        parse_decimal(decimal(n) + rest) == Some((n, rest)),
{
    let d = decimal(n);
    let t = d + rest;
    lemma_numeral_shape(n);
    let k = d.len() as int;
    assert(t.take(k) =~= d);
    assert(t.skip(k) =~= rest);
    lemma_digit_run_is(t, k);
}

/// Whatever `parse_decimal` accepts is a number in the one form that
/// `decimal` gives it.
pub proof fn lemma_parse_decimal_canonical(t: Seq<char>)
    requires
        parse_decimal(t) is Some,
    ensures
        t == decimal(parse_decimal(t).unwrap().0) + parse_decimal(t).unwrap().1,
        parse_decimal(t).unwrap().1.len() < t.len(),
{
    let k = digit_run(t) as int;
    lemma_digit_run_bounds(t);
    let d = t.take(k);
    assert(d[0] == t[0]);
    lemma_numeral_of_digits(d);
    assert(t =~= d + t.skip(k));
}

/// Appends the decimal digits of `n` to `out`.
pub fn push_decimal(out: &mut String, n: u32)
    ensures
        final(out)@ == old(out)@ + decimal(n as nat),
    decreases n,
{
    if n >= 10 {
        push_decimal(out, n / 10);
    }
    out.push(((48 + n % 10) as u8) as char);
    proof {
        assert(out@ =~= old(out)@ + decimal(n as nat));
    }
}

/// Appends the hexadecimal digits of `n` to `out`.
pub fn push_hexadecimal(out: &mut String, n: u128)
    ensures
        final(out)@ == old(out)@ + hexadecimal(n as nat),
    decreases n,
{
    if n >= 16 {
        push_hexadecimal(out, n / 16);
    }
    out.push(hex_digit_of((n % 16) as u8));
    proof {
        assert(out@ =~= old(out)@ + hexadecimal(n as nat));
    }
}

/// Reads a decimal number that starts at position `start` of `t` and fits in
/// 32 bits: the number, and the position after its last digit.
pub fn read_u32(t: &Vec<char>, start: usize) -> (r: Option<(u32, usize)>)
    requires
        start <= t.len(),
    ensures
        match r {
            Some((n, next)) => start < next <= t.len() && parse_u32(t@.skip(start as int)) == Some(
                (n, t@.skip(next as int)),
            ),
            None => parse_u32(t@.skip(start as int)) is None,
        },
{
    let ghost u = t@.skip(start as int);
    let len = t.len();
    if start >= len {
        return None;
    }
    let first: char = t[start];
    assert(u[0] == first);
    if first < '0' || first > '9' {
        return None;
    }
    let mut acc: u64 = (first as u32 - 48) as u64;
    let mut i: usize = start + 1;
    proof {
        assert(u.take(1).drop_last() =~= Seq::<char>::empty());
        assert(digits_value(u.take(1).drop_last()) == 0);
    }
    while i < len && '0' <= t[i] && t[i] <= '9'
        invariant
            start < i <= len,
            len == t.len(),
            u == t@.skip(start as int),
            all_digits(u.take(i - start)),
            acc == digits_value(u.take(i - start)),
            acc <= u32::MAX,
        decreases len - i,
    {
        let d: u64 = (t[i] as u32 - 48) as u64;
        let ghost k = i - start;
        proof {
            assert(u.take(k + 1).drop_last() =~= u.take(k));
            assert(u.take(k + 1).last() == t@[i as int]);
            assert forall|j: int| 0 <= j < k + 1 implies is_digit(#[trigger] u.take(k + 1)[j]) by {
                if j < k {
                    assert(u.take(k + 1)[j] == u.take(k)[j]);
                }
            }
        }
        acc = acc * 10 + d;
        i += 1;
        if acc > 0xffff_ffff {
            proof {
                lemma_digit_run_at_least(u, k + 1);
                lemma_digit_run_bounds(u);
                let run = digit_run(u) as int;
                lemma_digits_value_grows(u.take(run), k + 1);
                assert(u.take(run).take(k + 1) =~= u.take(k + 1));
            }
            return None;
        }
    }
    proof {
        lemma_digit_run_is(u, i - start);
        assert(u.skip(i - start) =~= t@.skip(i as int));
    }
    if first == '0' && i - start > 1 {
        return None;
    }
    Some((acc as u32, i))
}

} // verus!
