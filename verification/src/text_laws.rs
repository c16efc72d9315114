//! What holds of every byte string that is searched, cut, trimmed or read as a number.
use crate::bytes::{
    contains_bytes, cut_at, first_index, is_first_index, is_white_space, lemma_first_index_none,
    occurs_at, splitn, trim_ascii_start, trim_start, trimmed, trimmed_ascii, white_space_at_end,
    white_space_at_start,
};
use crate::debug::{hex_digits, law_hex_digits};
use crate::numbers::{digit, digits_value, trimmed_decimal, uint, unsigned_part};
use vstd::arithmetic::power::{lemma_pow0, lemma_pow_adds, lemma_pow1, pow};
use vstd::prelude::*;
use vstd::utf8::{encode_scalar, is_scalar};

verus! {

/// The position that a search gives holds the byte, and no position before it does. Nothing is
/// found exactly where no position holds the byte.
pub proof fn law_first_index(s: Seq<u8>, b: u8)
    ensures
        first_index(s, b) matches Some(i) ==> {
            &&& 0 <= i < s.len()
            &&& s[i] == b
            &&& forall|j: int| 0 <= j < i ==> s[j] != b
        },
        first_index(s, b) is None <==> forall|j: int| 0 <= j < s.len() ==> s[j] != b,
{
    lemma_first_index_none(s, b);
    if first_index(s, b) is Some {
        let i = choose|i: int| is_first_index(s, b, i);
        assert(is_first_index(s, b, i));
    } else {
        assert forall|j: int| 0 <= j < s.len() implies s[j] != b by {
            assert(s.contains(s[j]));
        }
    }
}

/// Cutting loses one separator and nothing else: the two parts with the separator between them
/// are the whole, and the first part holds no separator. Only what holds none cannot be cut.
pub proof fn law_cut(s: Seq<u8>, sep: u8)
    ensures
        cut_at(s, sep) matches Some((a, b)) ==> {
            &&& s == a + seq![sep] + b
            &&& forall|j: int| 0 <= j < a.len() ==> a[j] != sep
        },
        cut_at(s, sep) is None <==> forall|j: int| 0 <= j < s.len() ==> s[j] != sep,
{
    law_first_index(s, sep);
    if let Some((a, b)) = cut_at(s, sep) {
        assert(s =~= a + seq![sep] + b);
    }
}

/// The pieces with `sep` between them.
pub open spec fn rejoined(pieces: Seq<Seq<u8>>, sep: u8) -> Seq<u8>
    decreases pieces.len(),
{
    if pieces.len() == 0 {
        seq![]
    } else if pieces.len() == 1 {
        pieces[0]
    } else {
        pieces[0] + seq![sep] + rejoined(pieces.skip(1), sep)
    }
}

/// Splitting loses nothing but separators: with them between the pieces again the whole is
/// back. There are at most `n` pieces, none but the `n`-th holds a separator.
pub proof fn law_splitn(s: Seq<u8>, sep: u8, n: nat)
    requires
        n >= 1,
    ensures
        1 <= splitn(s, sep, n).len() <= n,
        rejoined(splitn(s, sep, n), sep) == s,
        forall|i: int, j: int|
            0 <= i < splitn(s, sep, n).len() && i < n - 1 && 0 <= j < splitn(s, sep, n)[i].len()
                ==> #[trigger] splitn(s, sep, n)[i][j] != sep,
    decreases n,
{
    let pieces = splitn(s, sep, n);
    law_cut(s, sep);
    if n > 1 {
        if let Some((a, b)) = cut_at(s, sep) {
            law_splitn(b, sep, (n - 1) as nat);
            let rest = splitn(b, sep, (n - 1) as nat);
            assert(pieces =~= seq![a] + rest);
            assert(pieces.skip(1) =~= rest);
            assert forall|i: int, j: int|
                0 <= i < pieces.len() && i < n - 1 && 0 <= j < pieces[i].len() implies
                #[trigger] pieces[i][j] != sep by {
                if i > 0 {
                    assert(pieces[i] == rest[i - 1]);
                    assert(rest[i - 1][j] != sep);
                }
            }
        }
    }
}

/// A string is a part of another exactly where the other consists of something, the string and
/// something. The empty string counts as a part of nothing.
pub proof fn law_contains(haystack: Seq<u8>, needle: Seq<u8>)
    ensures
        contains_bytes(haystack, needle) <==> needle.len() > 0 && exists|a: Seq<u8>, b: Seq<u8>|
            haystack == #[trigger] (a + needle + b),
{
    if contains_bytes(haystack, needle) {
        let i = choose|i: int| occurs_at(haystack, needle, i);
        let a = haystack.take(i);
        let b = haystack.skip(i + needle.len());
        assert(haystack.subrange(i, i + needle.len()) == needle);
        assert(haystack =~= a + needle + b);
    }
    if needle.len() > 0 && exists|a: Seq<u8>, b: Seq<u8>|
        haystack == #[trigger] (a + needle + b) {
        let (a, b) = choose|a: Seq<u8>, b: Seq<u8>| haystack == #[trigger] (a + needle + b);
        let i = a.len() as int;
        assert(haystack.subrange(i, i + needle.len()) =~= needle);
        assert(occurs_at(haystack, needle, i));
    }
}

/// One of the five bytes of ASCII white space.
pub open spec fn ascii_blank(b: u8) -> bool {
    b == 32 || b == 9 || b == 10 || b == 12 || b == 13
}

/// Trimming takes off an ASCII blank at either end, and takes off nothing where neither end is
/// one.
pub proof fn law_trim_ascii(s: Seq<u8>, b: u8)
    ensures
        ascii_blank(b) ==> trimmed_ascii(seq![b] + s) == trimmed_ascii(s),
        ascii_blank(b) ==> trimmed_ascii(s + seq![b]) == trimmed_ascii(s),
        s.len() > 0 && !ascii_blank(s[0]) && !ascii_blank(s.last()) ==> trimmed_ascii(s) == s,
        trimmed_ascii(Seq::<u8>::empty()) == Seq::<u8>::empty(),
{
    if ascii_blank(b) {
        assert((seq![b] + s).skip(1) =~= s);
        lemma_trim_ascii_start_behind(s, b);
        let t = trim_ascii_start(s);
        if t.len() == 0 {
            assert(t =~= Seq::<u8>::empty());
        } else {
            assert((t + seq![b]).drop_last() =~= t);
        }
    }
}

proof fn lemma_trim_ascii_start_behind(s: Seq<u8>, b: u8)
    requires
        ascii_blank(b),
    ensures
        trim_ascii_start(s + seq![b]) == if trim_ascii_start(s).len() == 0 {
            Seq::empty()
        } else {
            trim_ascii_start(s) + seq![b]
        },
    decreases s.len(),
{
    let t = s + seq![b];
    if s.len() == 0 {
        assert(t.skip(1) =~= Seq::<u8>::empty());
        assert(trim_ascii_start(t.skip(1)) =~= Seq::<u8>::empty());
    } else {
        assert(t.skip(1) =~= s.skip(1) + seq![b]);
        lemma_trim_ascii_start_behind(s.skip(1), b);
    }
}

/// The code points with Unicode's `White_Space` property.
pub open spec fn unicode_blank(v: u32) -> bool {
    ||| 9 <= v <= 13
    ||| v == 0x20
    ||| v == 0x85
    ||| v == 0xa0
    ||| v == 0x1680
    ||| 0x2000 <= v <= 0x200a
    ||| v == 0x2028
    ||| v == 0x2029
    ||| v == 0x202f
    ||| v == 0x205f
    ||| v == 0x3000
}

/// The white space that is trimmed is, in UTF-8, that of Unicode.
pub proof fn law_white_space_is_that_of_unicode(v: u32)
    requires
        is_scalar(v),
    ensures
        is_white_space(encode_scalar(v)) <==> unicode_blank(v),
{
    let b1 = (v & 0x7F) as u8;
    let c1 = 0xC0u8 | ((v >> 6) & 0x1F) as u8;
    let c2 = 0x80u8 | (v & 0x3F) as u8;
    let d1 = 0xE0u8 | ((v >> 12) & 0x0F) as u8;
    let d2 = 0x80u8 | ((v >> 6) & 0x3F) as u8;
    if v <= 0x7f {
        assert(b1 == v) by (bit_vector)
            requires
                v <= 0x7f,
                b1 == (v & 0x7F) as u8,
        ;
        assert(encode_scalar(v) == seq![b1]);
    } else if v <= 0x7ff {
        assert((c1 == 0xc2 && (c2 == 0x85 || c2 == 0xa0)) <==> (v == 0x85 || v == 0xa0))
            by (bit_vector)
            requires
                0x7f < v <= 0x7ff,
                c1 == 0xC0u8 | ((v >> 6) & 0x1F) as u8,
                c2 == 0x80u8 | (v & 0x3F) as u8,
        ;
        assert(encode_scalar(v) == seq![c1, c2]);
    } else if v <= 0xffff {
        assert((d1 == 0xe1 && d2 == 0x9a && c2 == 0x80) || (d1 == 0xe2 && d2 == 0x80 && ((0x80 <= c2
            && c2 <= 0x8a) || c2 == 0xa8 || c2 == 0xa9 || c2 == 0xaf)) || (d1 == 0xe2 && d2 == 0x81
            && c2 == 0x9f) || (d1 == 0xe3 && d2 == 0x80 && c2 == 0x80) <==> (v == 0x1680 || (0x2000
            <= v && v <= 0x200a) || v == 0x2028 || v == 0x2029 || v == 0x202f || v == 0x205f || v
            == 0x3000)) by (bit_vector)
            requires
                0x7ff < v <= 0xffff,
                d1 == 0xE0u8 | ((v >> 12) & 0x0F) as u8,
                d2 == 0x80u8 | ((v >> 6) & 0x3F) as u8,
                c2 == 0x80u8 | (v & 0x3F) as u8,
        ;
        assert(encode_scalar(v) == seq![d1, d2, c2]);
    } else {
        assert(encode_scalar(v).len() == 4);
    }
}

proof fn lemma_blank_shape(w: Seq<u8>)
    requires
        is_white_space(w),
    ensures
        1 <= w.len() <= 3,
        w[0] < 0x80 || w[0] >= 0xc2,
        w.len() == 1 ==> 0x09 <= w[0] <= 0x0d || w[0] == 0x20,
        w.len() >= 2 ==> w[0] >= 0xc2 && 0x80 <= w[1] <= 0xbf,
        w.len() == 3 ==> w[0] >= 0xe1 && 0x80 <= w[2] <= 0xbf,
        w.len() == 2 ==> w[0] == 0xc2,
{
}

proof fn lemma_blank_in_front(w: Seq<u8>, s: Seq<u8>)
    requires
        is_white_space(w),
    ensures
        white_space_at_start(w + s) == w.len(),
        white_space_at_end(s + w) == w.len(),
{
    lemma_blank_shape(w);
    let t = w + s;
    let u = s + w;
    let n = w.len() as int;
    assert(t.take(n) =~= w);
    assert(u.skip(u.len() - n) =~= w);
    if n >= 2 {
        assert(t.take(1)[0] == w[0]);
        assert(u.skip(u.len() - 1)[0] == w[n - 1]);
    }
    if n == 3 {
        assert(t.take(2)[0] == w[0]);
        assert(u.skip(u.len() - 2)[0] == w[1]);
    }
}

proof fn lemma_start_with_blank_behind(s: Seq<u8>, w: Seq<u8>)
    requires
        is_white_space(w),
        s.len() > 0,
    ensures
        white_space_at_start(s + w) == white_space_at_start(s),
{
    lemma_blank_shape(w);
    let t = s + w;
    assert(t.take(1) =~= s.take(1));
    if s.len() >= 2 {
        assert(t.take(2) =~= s.take(2));
    } else {
        assert(t.take(2)[1] == w[0]);
        assert(!is_white_space(t.take(2)));
        if t.len() >= 3 {
            assert(t.take(3)[1] == w[0]);
            assert(!is_white_space(t.take(3)));
        }
    }
    if s.len() >= 3 {
        assert(t.take(3) =~= s.take(3));
    } else if s.len() == 2 {
        assert(t.take(3)[2] == w[0]);
        assert(!is_white_space(t.take(3)));
    }
}

proof fn lemma_trim_start_behind(s: Seq<u8>, w: Seq<u8>)
    requires
        is_white_space(w),
    ensures
        trim_start(s + w) == if trim_start(s).len() == 0 {
            Seq::empty()
        } else {
            trim_start(s) + w
        },
    decreases s.len(),
{
    let t = s + w;
    if s.len() == 0 {
        let none = Seq::<u8>::empty();
        assert(t =~= w + none);
        lemma_blank_in_front(w, none);
        assert(t.skip(w.len() as int) =~= none);
        assert(trim_start(none) =~= none);
        assert(s =~= none);
    } else {
        lemma_start_with_blank_behind(s, w);
        let n = white_space_at_start(s);
        if n > 0 {
            assert(t.skip(n) =~= s.skip(n) + w);
            lemma_trim_start_behind(s.skip(n), w);
        }
    }
}

/// Trimming takes off a white space character at either end, and takes off nothing where no
/// such character stands at either end.
pub proof fn law_trim(s: Seq<u8>, w: Seq<u8>)
    ensures
        is_white_space(w) ==> trimmed(w + s) == trimmed(s),
        is_white_space(w) ==> trimmed(s + w) == trimmed(s),
        (forall|n: int|
            1 <= n <= 3 && n <= s.len() ==> !is_white_space(#[trigger] s.take(n))
                && !is_white_space(s.skip(s.len() - n))) ==> trimmed(s) == s,
{
    if is_white_space(w) {
        lemma_blank_shape(w);
        lemma_blank_in_front(w, s);
        assert((w + s).skip(w.len() as int) =~= s);
        lemma_trim_start_behind(s, w);
        let t = trim_start(s);
        if t.len() == 0 {
            assert(t =~= Seq::<u8>::empty());
        } else {
            lemma_blank_in_front(w, t);
            assert((t + w).take((t + w).len() - w.len()) =~= t);
        }
    }
    if forall|n: int|
        1 <= n <= 3 && n <= s.len() ==> !is_white_space(#[trigger] s.take(n)) && !is_white_space(
            s.skip(s.len() - n),
        ) {
        assert(s.len() >= 1 ==> !is_white_space(s.take(1)));
        assert(s.len() >= 2 ==> !is_white_space(s.take(2)));
        assert(s.len() >= 3 ==> !is_white_space(s.take(3)));
        assert(white_space_at_start(s) == 0);
        assert(white_space_at_end(s) == 0);
    }
}

/// The digits are `0` to `9`, which count from 0, and the letters, which count on from 10, in
/// either case alike. No other byte is a digit in any base up to 36.
pub proof fn law_digit(b: u8, k: u8)
    ensures
        k < 10 ==> digit((48 + k) as u8) == k,
        k < 26 ==> digit((97 + k) as u8) == 10 + k,
        k < 26 ==> digit((65 + k) as u8) == 10 + k,
        !(48 <= b <= 57) && !(65 <= b <= 90) && !(97 <= b <= 122) ==> digit(b) >= 36,
{
}

/// Digits have their value by place: what stands in front counts the base to the power of the
/// number of digits behind it. One digit has its own value, and none at all the value 0.
pub proof fn law_place_value(a: Seq<u8>, b: Seq<u8>, d: u8, radix: nat)
    ensures
        digits_value(a + b, radix) == digits_value(a, radix) * pow(radix as int, b.len())
            + digits_value(b, radix),
        digits_value(seq![d], radix) == digit(d),
        digits_value(Seq::<u8>::empty(), radix) == 0,
    decreases b.len(),
{
    let r = radix as int;
    assert(digits_value(seq![d], radix) == digit(d)) by {
        assert(seq![d].drop_last() =~= Seq::<u8>::empty());
        assert(digits_value(Seq::<u8>::empty(), radix) == 0);
        assert(0 * r == 0);
    }
    if b.len() == 0 {
        assert(a + b =~= a);
        lemma_pow0(r);
        assert(digits_value(a, radix) * 1 == digits_value(a, radix));
    } else {
        law_place_value(a, b.drop_last(), d, radix);
        assert((a + b).drop_last() =~= a + b.drop_last());
        assert((a + b).last() == b.last());
        let x = digits_value(a, radix) as int;
        let y = digits_value(b.drop_last(), radix) as int;
        let p = pow(r, (b.len() - 1) as nat);
        lemma_pow_adds(r, (b.len() - 1) as nat, 1);
        lemma_pow1(r);
        assert((x * p + y) * r == x * (p * r) + y * r) by (nonlinear_arith);
    }
}

/// A string of digits is read as their value, whatever its length, where that is no more than
/// the limit, also behind one plus sign. Above the limit it is refused.
pub proof fn law_digits_are_read(d: Seq<u8>, radix: nat, max: nat)
    requires
        2 <= radix <= 36,
        d.len() > 0,
        forall|i: int| 0 <= i < d.len() ==> digit(#[trigger] d[i]) < radix,
    ensures
        uint(d, radix, max) == if digits_value(d, radix) <= max {
            Some(digits_value(d, radix))
        } else {
            None
        },
        uint(seq![43u8] + d, radix, max) == uint(d, radix, max),
{
    assert(digit(d[0]) < radix);
    assert(unsigned_part(d) == d);
    assert((seq![43u8] + d).skip(1) =~= d);
}

/// Nothing but digits, with at most one plus sign in front, is read as a number, and the number
/// is no more than the limit.
pub proof fn law_only_digits_are_read(s: Seq<u8>, radix: nat, max: nat)
    requires
        2 <= radix <= 36,
    ensures
        uint(s, radix, max) matches Some(v) ==> {
            &&& s.len() > 0
            &&& forall|i: int| 1 <= i < s.len() ==> digit(#[trigger] s[i]) < radix
            &&& digit(s[0]) < radix || s[0] == 43 && s.len() > 1
            &&& v <= max
        },
{
    if uint(s, radix, max) is Some {
        let d = unsigned_part(s);
        assert forall|i: int| 1 <= i < s.len() implies digit(#[trigger] s[i]) < radix by {
            if d == s {
                assert(digit(d[i]) < radix);
            } else {
                assert(d[i - 1] == s[i]);
                assert(digit(d[i - 1]) < radix);
            }
        }
        if !(s.len() > 1 && s[0] == 0x2b) {
            assert(digit(d[0]) < radix);
        }
    }
}

/// What is printed in hexadecimal digits is read back as the same number.
pub proof fn law_printed_numbers_are_read_back(v: nat, max: nat)
    requires
        v <= max,
    ensures
        uint(hex_digits(v), 16, max) == Some(v),
{
    law_hex_digits(v);
    law_digits_are_read(hex_digits(v), 16, max);
}

/// A string of decimal digits is read as their value where that fits 64 bits, whatever white
/// space stands around it.
pub proof fn law_decimal(d: Seq<u8>, s: Seq<u8>, w: Seq<u8>)
    requires
        d.len() > 0,
        forall|i: int| 0 <= i < d.len() ==> 48 <= #[trigger] d[i] <= 57,
        is_white_space(w),
    ensures
        trimmed_decimal(d) == if digits_value(d, 10) <= 0xffff_ffff_ffff_ffff {
            Some(digits_value(d, 10))
        } else {
            None
        },
        trimmed_decimal(w + s) == trimmed_decimal(s),
        trimmed_decimal(s + w) == trimmed_decimal(s),
{
    law_trim(s, w);
    assert forall|n: int| 1 <= n <= 3 && n <= d.len() implies !is_white_space(#[trigger] d.take(n))
        && !is_white_space(d.skip(d.len() - n)) by {
        assert(d.take(n)[0] == d[0]);
        assert(d.skip(d.len() - n)[0] == d[d.len() - n]);
    }
    law_trim(d, w);
    assert forall|i: int| 0 <= i < d.len() implies digit(#[trigger] d[i]) < 10 by {
        assert(48 <= d[i] <= 57);
    }
    law_digits_are_read(d, 10, u64::MAX as nat);
}

/// What is read as a decimal number is what is left of the string once it is trimmed: digits
/// only, with at most one plus sign in front, and a value that fits 64 bits.
pub proof fn law_only_decimals_are_read(s: Seq<u8>)
    ensures
        trimmed_decimal(s) == uint(trimmed(s), 10, 0xffff_ffff_ffff_ffff),
        trimmed_decimal(s) matches Some(v) ==> {
            let t = trimmed(s);
            &&& v <= 0xffff_ffff_ffff_ffff
            &&& t.len() > 0
            &&& forall|i: int| 1 <= i < t.len() ==> 48 <= #[trigger] t[i] <= 57
            &&& 48 <= t[0] <= 57 || t[0] == 43 && t.len() > 1
        },
{
    law_only_digits_are_read(trimmed(s), 10, 0xffff_ffff_ffff_ffff);
    if trimmed_decimal(s) is Some {
        let t = trimmed(s);
        assert forall|i: int| 1 <= i < t.len() implies 48 <= #[trigger] t[i] <= 57 by {
            assert(digit(t[i]) < 10);
        }
    }
}

} // verus!
