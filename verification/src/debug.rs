//! Debug output: which bytes go to standard output, one entry per write.
use crate::numbers::{all_digits, digit, digits_value};
use vstd::arithmetic::power::{lemma_pow0, lemma_pow1, lemma_pow_adds, pow};
use vstd::prelude::*;
use vstd::slice::slice_to_vec;
use vstd::utf8::{decode_utf8, encode_utf8, valid_utf8};

verus! {

/// Writes to standard output that are still to be made, the first one first. Nothing is added
/// unless `enabled` is set.
pub struct DebugOutput {
    pub enabled: bool,
    pub pending: Vec<Vec<u8>>,
}

impl View for DebugOutput {
    type V = Seq<Seq<u8>>;

    open spec fn view(&self) -> Seq<Seq<u8>> {
        Seq::new(self.pending@.len(), |i: int| self.pending@[i]@)
    }
}

impl DebugOutput {
    /// No writes yet.
    pub fn new(enabled: bool) -> (r: DebugOutput)
        ensures
            r.enabled == enabled,
            r@ == Seq::<Seq<u8>>::empty(),
    {
        let r = DebugOutput { enabled, pending: Vec::new() };
        assert(r@ =~= Seq::<Seq<u8>>::empty());
        r
    }

    /// The writes that are there once `more` have been asked for too.
    pub open spec fn plus(self, more: Seq<Seq<u8>>) -> Seq<Seq<u8>> {
        if self.enabled {
            self@ + more
        } else {
            self@
        }
    }

    fn push(&mut self, bytes: Vec<u8>)
        ensures
            final(self).enabled == old(self).enabled,
            final(self)@ == old(self).plus(seq![bytes@]),
    {
        if self.enabled {
            self.pending.push(bytes);
        }
        assert(self@ =~= old(self).plus(seq![bytes@]));
    }
}

/// Asks for a string to be written, without a line feed behind it.
pub fn writes(out: &mut DebugOutput, s: &str)
    ensures
        final(out).enabled == old(out).enabled,
        final(out)@ == old(out).plus(seq![encode_utf8(s@)]),
        old(out).enabled ==> valid_utf8(final(out)@.last()) && decode_utf8(final(out)@.last())
            == s@,
{
    broadcast use vstd::utf8::encode_utf8_valid_utf8, vstd::utf8::encode_utf8_decode_utf8;

    out.push(slice_to_vec(s.as_bytes()));
}

/// The bytes of a line feed.
pub open spec fn line_feed() -> Seq<u8> {
    seq![0x0a]
}

/// Asks for a string to be written and, in a write of its own, a line feed.
pub fn puts(out: &mut DebugOutput, s: &str)
    ensures
        final(out).enabled == old(out).enabled,
        final(out)@ == old(out).plus(seq![encode_utf8(s@), line_feed()]),
        old(out).enabled ==> {
            &&& final(out)@.len() == old(out)@.len() + 2
            &&& decode_utf8(final(out)@[old(out)@.len() as int]) == s@
            &&& final(out)@.last() == seq![10u8]
        },
{
    broadcast use vstd::utf8::encode_utf8_decode_utf8;

    writes(out, s);
    let mut newline: Vec<u8> = Vec::new();
    newline.push(0x0a);
    assert(newline@ =~= line_feed());
    out.push(newline);
    assert(out@ =~= old(out).plus(seq![encode_utf8(s@), line_feed()]));
}

/// The lowercase hexadecimal digit of a value below 16.
pub open spec fn hex_digit(v: nat) -> u8 {
    if v < 10 {
        (0x30 + v) as u8
    } else {
        (0x61 + v - 10) as u8
    }
}

/// `v` in lowercase hexadecimal digits, without a prefix and without leading zeros.
pub open spec fn hex_digits(v: nat) -> Seq<u8>
    decreases v,
{
    if v < 16 {
        seq![hex_digit(v)]
    } else {
        hex_digits(v / 16).push(hex_digit(v % 16))
    }
}

fn hex_digit_of(v: u8) -> (r: u8)
    requires
        v < 16,
    ensures
        r == hex_digit(v as nat),
{
    if v < 10 {
        0x30 + v
    } else {
        0x61 + (v - 10)
    }
}

/// `v` in lowercase hexadecimal digits.
pub fn format_hex(v: usize) -> (r: Vec<u8>)
    ensures
        r@ == hex_digits(v as nat),
        digits_value(r@, 16) == v,
        1 <= r@.len() <= 16,
{
    proof {
        law_hex_digits(v as nat);
    }
    let mut buf: [u8; 16] = [0; 16];
    let mut i: usize = 15;
    let mut n: u64 = v as u64;
    assert((n & 0xf) < 16 && n & 0xf == n % 16 && n >> 4 == n / 16) by (bit_vector);
    buf[15] = hex_digit_of((n & 0xf) as u8);
    n = n >> 4;
    proof {
        lemma_pow16_15();
        assert(buf@.subrange(15, 16) =~= seq![hex_digit(v as nat % 16)]);
    }
    while n != 0
        invariant
            i <= 15,
            buf@.len() == 16,
            n < pow(16, i as nat),
            hex_digits(v as nat) == if n == 0 {
                buf@.subrange(i as int, 16)
            } else {
                hex_digits(n as nat) + buf@.subrange(i as int, 16)
            },
        decreases n,
    {
        proof {
            if i == 0 {
                lemma_pow0(16);
            } else {
                lemma_pow_adds(16, (i - 1) as nat, 1);
                lemma_pow1(16);
            }
        }
        let ghost tail = buf@.subrange(i as int, 16);
        let ghost before = n;
        assert((n & 0xf) < 16 && n & 0xf == n % 16 && n >> 4 == n / 16) by (bit_vector);
        i -= 1;
        buf[i] = hex_digit_of((n & 0xf) as u8);
        n = n >> 4;
        assert(buf@.subrange(i as int, 16) =~= seq![hex_digit(before as nat % 16)] + tail);
        assert(hex_digits(before as nat) + tail =~= if n == 0 {
            buf@.subrange(i as int, 16)
        } else {
            hex_digits(n as nat) + buf@.subrange(i as int, 16)
        });
    }
    let mut r: Vec<u8> = Vec::new();
    let mut k: usize = i;
    while k < 16
        invariant
            i <= k <= 16,
            buf@.len() == 16,
            r@ == buf@.subrange(i as int, k as int),
        decreases 16 - k,
    {
        r.push(buf[k]);
        k += 1;
        assert(r@ =~= buf@.subrange(i as int, k as int));
    }
    r
}

proof fn lemma_pow16_15()
    ensures
        pow(16, 15) == 0x1000_0000_0000_0000,
{
    reveal_with_fuel(pow, 16);
}

/// Asks for a number to be written in lowercase hexadecimal digits, without a prefix.
pub fn write_hex(out: &mut DebugOutput, v: usize)
    ensures
        final(out).enabled == old(out).enabled,
        final(out)@ == old(out).plus(seq![hex_digits(v as nat)]),
        old(out).enabled ==> digits_value(final(out)@.last(), 16) == v,
{
    proof {
        law_hex_digits(v as nat);
    }
    out.push(format_hex(v));
}

proof fn lemma_hex_length(v: nat, k: nat)
    requires
        k >= 1,
        v < pow(16, k),
    ensures
        hex_digits(v).len() <= k,
    decreases k,
{
    if v >= 16 {
        lemma_pow1(16);
        lemma_pow_adds(16, (k - 1) as nat, 1);
        lemma_hex_length(v / 16, (k - 1) as nat);
    }
}

/// The digits that are written for a number are digits of base 16 that write that number, in
/// lowercase, at least one, and the first is no zero unless the number is zero. A machine word
/// takes at most 16 of them.
pub proof fn law_hex_digits(v: nat)
    ensures
        all_digits(hex_digits(v), 16),
        digits_value(hex_digits(v), 16) == v,
        hex_digits(v).len() > 0,
        v > 0 ==> hex_digits(v)[0] != 0x30,
        v <= u64::MAX ==> hex_digits(v).len() <= 16,
        forall|i: int|
            0 <= i < hex_digits(v).len() ==> 0x30 <= #[trigger] hex_digits(v)[i] <= 0x39 || 0x61
                <= hex_digits(v)[i] <= 0x66,
    decreases v,
{
    let d = hex_digits(v);
    if v <= u64::MAX {
        lemma_pow16_15();
        lemma_pow_adds(16, 15, 1);
        lemma_pow1(16);
        lemma_hex_length(v, 16);
    }
    if v < 16 {
        assert(d.drop_last() =~= Seq::<u8>::empty());
        assert(digits_value(d.drop_last(), 16) == 0);
    } else {
        law_hex_digits(v / 16);
        let h = hex_digits(v / 16);
        assert(d.drop_last() =~= h);
        assert(d.last() == hex_digit(v % 16));
        assert forall|i: int| 0 <= i < d.len() implies digit(#[trigger] d[i]) < 16 && (0x30 <= d[i]
            <= 0x39 || 0x61 <= d[i] <= 0x66) by {
            if i < h.len() {
                assert(d[i] == h[i]);
            }
        }
    }
}

/// Output that is enabled keeps what was asked for before, in order, and has the new writes
/// behind it; output that is not stays as it is. What is to be written is what is pending.
pub proof fn law_output_grows_at_its_end(out: DebugOutput, more: Seq<Seq<u8>>, i: int)
    ensures
        out@.len() == out.pending@.len(),
        0 <= i < out@.len() ==> out@[i] == out.pending@[i]@,
        out.enabled ==> {
            &&& out.plus(more).len() == out@.len() + more.len()
            &&& 0 <= i < out@.len() ==> out.plus(more)[i] == out@[i]
            &&& 0 <= i < more.len() ==> out.plus(more)[out@.len() + i] == more[i]
        },
        !out.enabled ==> out.plus(more) == out@,
        line_feed().len() == 1 && line_feed()[0] == 10,
{
}

} // verus!
