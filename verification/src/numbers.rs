//! Unsigned numbers written in ASCII digits.
use crate::bytes::{trim, trimmed};
use vstd::prelude::*;

verus! {

/// The value of a digit; letters of either case go on where `9` ends. What is no digit in any
/// base up to 36 has the value 36.
pub open spec fn digit(b: u8) -> nat {
    if 0x30 <= b <= 0x39 {
        (b - 0x30) as nat
    } else if 0x61 <= b <= 0x7a {
        (b - 0x61 + 10) as nat
    } else if 0x41 <= b <= 0x5a {
        (b - 0x41 + 10) as nat
    } else {
        36
    }
}

/// Every byte of `s` is a digit in base `radix`.
pub open spec fn all_digits(s: Seq<u8>, radix: nat) -> bool {
    forall|i: int| 0 <= i < s.len() ==> digit(#[trigger] s[i]) < radix
}

/// The number that the digits of `s` write in base `radix`, the most significant first.
pub open spec fn digits_value(s: Seq<u8>, radix: nat) -> nat
    decreases s.len(),
{
    if s.len() == 0 {
        0
    } else {
        digits_value(s.drop_last(), radix) * radix + digit(s.last())
    }
}

/// `s` without the one plus sign that may stand before the digits.
pub open spec fn unsigned_part(s: Seq<u8>) -> Seq<u8> {
    if s.len() > 1 && s[0] == 0x2b {
        s.skip(1)
    } else {
        s
    }
}

/// The number that `s` writes in base `radix`: at least one digit, digits only but for one
/// leading plus sign, and a value of at most `max`.
pub open spec fn uint(s: Seq<u8>, radix: nat, max: nat) -> Option<nat> {
    let d = unsigned_part(s);
    if d.len() > 0 && all_digits(d, radix) && digits_value(d, radix) <= max {
        Some(digits_value(d, radix))
    } else {
        None
    }
}

/// The decimal number that `s` writes once its surrounding white space is cut off.
pub open spec fn trimmed_decimal(s: Seq<u8>) -> Option<nat> {
    uint(trimmed(s), 10, u64::MAX as nat)
}

/// More digits never make a number smaller.
pub proof fn lemma_prefix_value(s: Seq<u8>, n: int, radix: nat)
    requires
        0 <= n <= s.len(),
        radix >= 1,
    ensures
        digits_value(s.take(n), radix) <= digits_value(s, radix),
    decreases s.len(),
{
    if n == s.len() {
        assert(s.take(n) =~= s);
    } else {
        lemma_prefix_value(s.drop_last(), n, radix);
        assert(s.drop_last().take(n) =~= s.take(n));
        let v = digits_value(s.drop_last(), radix);
        assert(v <= v * radix) by (nonlinear_arith)
            requires
                radix >= 1,
        ;
    }
}

fn digit_of(b: u8) -> (r: u64)
    ensures
        r == digit(b),
        r <= 36,
{
    if 0x30 <= b && b <= 0x39 {
        (b - 0x30) as u64
    } else if 0x61 <= b && b <= 0x7a {
        (b - 0x61) as u64 + 10
    } else if 0x41 <= b && b <= 0x5a {
        (b - 0x41) as u64 + 10
    } else {
        36
    }
}

/// Reads an unsigned number in base `radix` that is at most `max`.
pub fn parse_uint(s: &[u8], radix: u64, max: u64) -> (r: Option<u64>)
    requires
        2 <= radix <= 36,
    ensures
        r is Some <==> uint(s@, radix as nat, max as nat) is Some,
        r matches Some(v) ==> uint(s@, radix as nat, max as nat) == Some(v as nat),
{
    let end: usize = s.len();
    let start: usize = if end > 1 && s[0] == 0x2b {
        1
    } else {
        0
    };
    let ghost d = unsigned_part(s@);
    assert(d =~= s@.subrange(start as int, end as int));
    if start == end {
        return None;
    }
    let mut v: u64 = 0;
    let mut i: usize = start;
    assert(d.take(0) =~= Seq::<u8>::empty());
    while i < end
        invariant
            2 <= radix <= 36,
            0 <= start <= i <= end == s@.len(),
            d == unsigned_part(s@),
            d == s@.subrange(start as int, end as int),
            all_digits(d.take(i - start), radix as nat),
            v == digits_value(d.take(i - start), radix as nat),
            v <= max,
        decreases end - i,
    {
        let ghost k = i - start;
        let x: u64 = digit_of(s[i]);
        assert(d[k] == s@[i as int]);
        if x >= radix {
            assert(!all_digits(d, radix as nat));
            return None;
        }
        let ghost next = d.take(k + 1);
        proof {
            assert(next.drop_last() =~= d.take(k));
            assert(next.last() == d[k]);
            lemma_prefix_value(d, k + 1, radix as nat);
            assert(digits_value(next, radix as nat) == v * radix + x);
            assert forall|j: int| 0 <= j < next.len() implies digit(#[trigger] next[j])
                < radix as nat by {
                if j < k {
                    assert(next[j] == d.take(k)[j]);
                }
            }
        }
        match v.checked_mul(radix) {
            Some(m) => match m.checked_add(x) {
                Some(w) => {
                    if w > max {
                        return None;
                    }
                    v = w;
                },
                None => {
                    return None;
                },
            },
            None => {
                return None;
            },
        }
        i += 1;
    }
    assert(d.take(end - start) =~= d);
    Some(v)
}

/// Reads a decimal number with white space around it.
pub fn parse_trimmed_decimal(s: &[u8]) -> (r: Option<u64>)
    ensures
        r is Some <==> trimmed_decimal(s@) is Some,
        r matches Some(v) ==> trimmed_decimal(s@) == Some(v as nat),
{
    parse_uint(trim(s), 10, u64::MAX)
}

} // verus!
