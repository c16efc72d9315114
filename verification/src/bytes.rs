//! Searching, cutting and trimming byte strings.
use vstd::prelude::*;
use vstd::slice::slice_subrange;

verus! {

/// `i` is the position of the first `b` in `s`.
pub open spec fn is_first_index(s: Seq<u8>, b: u8, i: int) -> bool {
    &&& 0 <= i < s.len()
    &&& s[i] == b
    &&& forall|j: int| 0 <= j < i ==> s[j] != b
}

/// The position of the first `b` in `s`.
pub open spec fn first_index(s: Seq<u8>, b: u8) -> Option<int> {
    if exists|i: int| is_first_index(s, b, i) {
        Some(choose|i: int| is_first_index(s, b, i))
    } else {
        None
    }
}

/// A position that has the first occurrence is the one that `first_index` gives.
pub proof fn lemma_first_index(s: Seq<u8>, b: u8, i: int)
    requires
        is_first_index(s, b, i),
    ensures
        first_index(s, b) == Some(i),
{
    let k = choose|k: int| is_first_index(s, b, k);
    assert(is_first_index(s, b, k));
    if k < i {
        assert(s[k] != b);
    } else if i < k {
        assert(s[i] != b);
    }
}

/// `first_index` finds nothing exactly where the byte does not occur.
pub proof fn lemma_first_index_none(s: Seq<u8>, b: u8)
    ensures
        first_index(s, b) is None <==> !s.contains(b),
    decreases s.len(),
{
    if s.contains(b) {
        let k = choose|k: int| 0 <= k < s.len() && s[k] == b;
        lemma_first_below(s, b, k);
    } else {
        assert forall|i: int| !is_first_index(s, b, i) by {
            if is_first_index(s, b, i) {
                assert(s.contains(s[i]));
            }
        }
    }
}

proof fn lemma_first_below(s: Seq<u8>, b: u8, k: int)
    requires
        0 <= k < s.len(),
        s[k] == b,
    ensures
        first_index(s, b) is Some,
    decreases k,
{
    if forall|j: int| 0 <= j < k ==> s[j] != b {
        lemma_first_index(s, b, k);
    } else {
        let j = choose|j: int| 0 <= j < k && s[j] == b;
        lemma_first_below(s, b, j);
    }
}

/// Finds the first `b` in `s`.
pub fn position(s: &[u8], b: u8) -> (r: Option<usize>)
    ensures
        r is Some <==> first_index(s@, b) is Some,
        r matches Some(i) ==> first_index(s@, b) == Some(i as int) && is_first_index(
            s@,
            b,
            i as int,
        ),
{
    let mut i: usize = 0;
    while i < s.len()
        invariant
            0 <= i <= s@.len(),
            forall|j: int| 0 <= j < i ==> s@[j] != b,
        decreases s@.len() - i,
    {
        if s[i] == b {
            proof {
                lemma_first_index(s@, b, i as int);
            }
            return Some(i);
        }
        i += 1;
    }
    proof {
        lemma_first_index_none(s@, b);
    }
    None
}

/// `s` cut at its first `sep` into what stands before it and what stands behind it.
pub open spec fn cut_at(s: Seq<u8>, sep: u8) -> Option<(Seq<u8>, Seq<u8>)> {
    match first_index(s, sep) {
        Some(i) => Some((s.take(i), s.skip(i + 1))),
        None => None,
    }
}

/// Cuts `s` at its first `sep`; the separator itself is in neither part.
pub fn cut(s: &[u8], sep: u8) -> (r: Option<(&[u8], &[u8])>)
    ensures
        r is Some <==> cut_at(s@, sep) is Some,
        r matches Some((head, tail)) ==> cut_at(s@, sep) == Some((head@, tail@)),
{
    match position(s, sep) {
        Some(i) => {
            let end: usize = s.len();
            let head = slice_subrange(s, 0, i);
            let tail = slice_subrange(s, i + 1, end);
            assert(head@ =~= s@.take(i as int));
            assert(tail@ =~= s@.skip(i + 1));
            Some((head, tail))
        },
        None => None,
    }
}

/// The pieces of `s` between the first `n - 1` occurrences of `sep`, in order.
/// The last of the `n` pieces is whatever is left, separators included.
pub open spec fn splitn(s: Seq<u8>, sep: u8, n: nat) -> Seq<Seq<u8>>
    decreases n,
{
    if n == 0 {
        seq![]
    } else if n == 1 {
        seq![s]
    } else {
        match cut_at(s, sep) {
            Some((head, tail)) => seq![head] + splitn(tail, sep, (n - 1) as nat),
            None => seq![s],
        }
    }
}

/// Compares two byte strings.
pub fn same_bytes(a: &[u8], b: &[u8]) -> (r: bool)
    ensures
        r <==> a@ == b@,
{
    if a.len() != b.len() {
        return false;
    }
    let mut i: usize = 0;
    while i < a.len()
        invariant
            a@.len() == b@.len(),
            0 <= i <= a@.len(),
            forall|j: int| 0 <= j < i ==> a@[j] == b@[j],
        decreases a@.len() - i,
    {
        if a[i] != b[i] {
            return false;
        }
        i += 1;
    }
    assert(a@ =~= b@);
    true
}

/// `needle` stands in `haystack` from position `i` on.
pub open spec fn occurs_at(haystack: Seq<u8>, needle: Seq<u8>, i: int) -> bool {
    &&& 0 <= i
    &&& i + needle.len() <= haystack.len()
    &&& haystack.subrange(i, i + needle.len()) == needle
}

/// `needle` is a part of `haystack`; the empty string is a part of nothing.
pub open spec fn contains_bytes(haystack: Seq<u8>, needle: Seq<u8>) -> bool {
    needle.len() > 0 && exists|i: int| occurs_at(haystack, needle, i)
}

/// Space, tab, line feed, form feed or carriage return.
pub open spec fn is_ascii_space(b: u8) -> bool {
    b == 0x20 || b == 0x09 || b == 0x0a || b == 0x0c || b == 0x0d
}

/// `s` without the ASCII white space at its start.
pub open spec fn trim_ascii_start(s: Seq<u8>) -> Seq<u8>
    decreases s.len(),
{
    if s.len() > 0 && is_ascii_space(s[0]) {
        trim_ascii_start(s.skip(1))
    } else {
        s
    }
}

/// `s` without the ASCII white space at its end.
pub open spec fn trim_ascii_end(s: Seq<u8>) -> Seq<u8>
    decreases s.len(),
{
    if s.len() > 0 && is_ascii_space(s.last()) {
        trim_ascii_end(s.drop_last())
    } else {
        s
    }
}

/// `s` without the ASCII white space at either end.
pub open spec fn trimmed_ascii(s: Seq<u8>) -> Seq<u8> {
    trim_ascii_end(trim_ascii_start(s))
}

fn ascii_space(b: u8) -> (r: bool)
    ensures
        r == is_ascii_space(b),
{
    b == 0x20 || b == 0x09 || b == 0x0a || b == 0x0c || b == 0x0d
}

/// Cuts the ASCII white space off both ends of `s`.
pub fn trim_ascii(s: &[u8]) -> (r: &[u8])
    ensures
        r@ == trimmed_ascii(s@),
{
    let mut lo: usize = 0;
    assert(s@.skip(0) =~= s@);
    while lo < s.len() && ascii_space(s[lo])
        invariant
            0 <= lo <= s@.len(),
            trim_ascii_start(s@) == trim_ascii_start(s@.skip(lo as int)),
        decreases s@.len() - lo,
    {
        assert(s@.skip(lo as int).skip(1) =~= s@.skip(lo + 1));
        lo += 1;
    }
    let ghost mid = s@.skip(lo as int);
    assert(trim_ascii_start(s@) == mid);
    let mut hi: usize = s.len();
    assert(s@.subrange(lo as int, hi as int) =~= mid);
    while lo < hi && ascii_space(s[hi - 1])
        invariant
            0 <= lo <= hi <= s@.len(),
            trim_ascii_end(mid) == trim_ascii_end(s@.subrange(lo as int, hi as int)),
        decreases hi,
    {
        assert(s@.subrange(lo as int, hi as int).drop_last() =~= s@.subrange(lo as int, hi - 1));
        hi -= 1;
    }
    slice_subrange(s, lo, hi)
}

/// The UTF-8 encoding of one character with Unicode's `White_Space` property.
pub open spec fn is_white_space(c: Seq<u8>) -> bool {
    ||| c.len() == 1 && (0x09 <= c[0] <= 0x0d || c[0] == 0x20)
    ||| c.len() == 2 && c[0] == 0xc2 && (c[1] == 0x85 || c[1] == 0xa0)
    ||| c.len() == 3 && c[0] == 0xe1 && c[1] == 0x9a && c[2] == 0x80
    ||| c.len() == 3 && c[0] == 0xe2 && c[1] == 0x80 && (0x80 <= c[2] <= 0x8a || c[2] == 0xa8
        || c[2] == 0xa9 || c[2] == 0xaf)
    ||| c.len() == 3 && c[0] == 0xe2 && c[1] == 0x81 && c[2] == 0x9f
    ||| c.len() == 3 && c[0] == 0xe3 && c[1] == 0x80 && c[2] == 0x80
}

/// How many bytes the white space character at the start of `s` takes; 0 where there is none.
pub open spec fn white_space_at_start(s: Seq<u8>) -> int {
    if s.len() >= 1 && is_white_space(s.take(1)) {
        1
    } else if s.len() >= 2 && is_white_space(s.take(2)) {
        2
    } else if s.len() >= 3 && is_white_space(s.take(3)) {
        3
    } else {
        0
    }
}

/// How many bytes the white space character at the end of `s` takes; 0 where there is none.
pub open spec fn white_space_at_end(s: Seq<u8>) -> int {
    if s.len() >= 1 && is_white_space(s.skip(s.len() - 1)) {
        1
    } else if s.len() >= 2 && is_white_space(s.skip(s.len() - 2)) {
        2
    } else if s.len() >= 3 && is_white_space(s.skip(s.len() - 3)) {
        3
    } else {
        0
    }
}

/// `s` without the white space characters at its start.
pub open spec fn trim_start(s: Seq<u8>) -> Seq<u8>
    decreases s.len(),
{
    let n = white_space_at_start(s);
    if n > 0 {
        trim_start(s.skip(n))
    } else {
        s
    }
}

/// `s` without the white space characters at its end.
pub open spec fn trim_end(s: Seq<u8>) -> Seq<u8>
    decreases s.len(),
{
    let n = white_space_at_end(s);
    if n > 0 {
        trim_end(s.take(s.len() - n))
    } else {
        s
    }
}

/// `s` without the white space characters at either end.
pub open spec fn trimmed(s: Seq<u8>) -> Seq<u8> {
    trim_end(trim_start(s))
}

/// Tests whether `s[lo..hi]` is one white space character.
fn white_space(s: &[u8], lo: usize, hi: usize) -> (r: bool)
    requires
        lo <= hi <= s@.len(),
    ensures
        r == is_white_space(s@.subrange(lo as int, hi as int)),
{
    let n: usize = hi - lo;
    if n == 1 {
        let b: u8 = s[lo];
        (0x09 <= b && b <= 0x0d) || b == 0x20
    } else if n == 2 {
        s[lo] == 0xc2 && (s[lo + 1] == 0x85 || s[lo + 1] == 0xa0)
    } else if n == 3 {
        let a: u8 = s[lo];
        let b: u8 = s[lo + 1];
        let c: u8 = s[lo + 2];
        (a == 0xe1 && b == 0x9a && c == 0x80) || (a == 0xe2 && b == 0x80 && ((0x80 <= c && c
            <= 0x8a) || c == 0xa8 || c == 0xa9 || c == 0xaf)) || (a == 0xe2 && b == 0x81 && c
            == 0x9f) || (a == 0xe3 && b == 0x80 && c == 0x80)
    } else {
        false
    }
}

fn white_space_prefix(s: &[u8], lo: usize, hi: usize) -> (r: usize)
    requires
        lo <= hi <= s@.len(),
    ensures
        r == white_space_at_start(s@.subrange(lo as int, hi as int)),
{
    let ghost t = s@.subrange(lo as int, hi as int);
    assert(t.len() >= 1 ==> t.take(1) =~= s@.subrange(lo as int, lo + 1));
    assert(t.len() >= 2 ==> t.take(2) =~= s@.subrange(lo as int, lo + 2));
    assert(t.len() >= 3 ==> t.take(3) =~= s@.subrange(lo as int, lo + 3));
    if hi - lo >= 1 && white_space(s, lo, lo + 1) {
        1
    } else if hi - lo >= 2 && white_space(s, lo, lo + 2) {
        2
    } else if hi - lo >= 3 && white_space(s, lo, lo + 3) {
        3
    } else {
        0
    }
}

fn white_space_suffix(s: &[u8], lo: usize, hi: usize) -> (r: usize)
    requires
        lo <= hi <= s@.len(),
    ensures
        r == white_space_at_end(s@.subrange(lo as int, hi as int)),
{
    let ghost t = s@.subrange(lo as int, hi as int);
    assert(t.len() >= 1 ==> t.skip(t.len() - 1) =~= s@.subrange(hi - 1, hi as int));
    assert(t.len() >= 2 ==> t.skip(t.len() - 2) =~= s@.subrange(hi - 2, hi as int));
    assert(t.len() >= 3 ==> t.skip(t.len() - 3) =~= s@.subrange(hi - 3, hi as int));
    if hi - lo >= 1 && white_space(s, hi - 1, hi) {
        1
    } else if hi - lo >= 2 && white_space(s, hi - 2, hi) {
        2
    } else if hi - lo >= 3 && white_space(s, hi - 3, hi) {
        3
    } else {
        0
    }
}

/// Cuts the white space characters off both ends of `s`.
pub fn trim(s: &[u8]) -> (r: &[u8])
    ensures
        r@ == trimmed(s@),
{
    let mut lo: usize = 0;
    let end: usize = s.len();
    let mut n: usize = white_space_prefix(s, lo, end);
    assert(s@.subrange(0, end as int) =~= s@);
    while n > 0
        invariant
            0 <= lo <= end == s@.len(),
            n == white_space_at_start(s@.subrange(lo as int, end as int)),
            trim_start(s@) == trim_start(s@.subrange(lo as int, end as int)),
        decreases end - lo,
    {
        assert(s@.subrange(lo as int, end as int).skip(n as int) =~= s@.subrange(
            lo + n,
            end as int,
        ));
        lo += n;
        n = white_space_prefix(s, lo, end);
    }
    let ghost mid = s@.subrange(lo as int, end as int);
    assert(trim_start(s@) == mid);
    let mut hi: usize = end;
    let mut m: usize = white_space_suffix(s, lo, hi);
    while m > 0
        invariant
            0 <= lo <= hi <= s@.len(),
            m == white_space_at_end(s@.subrange(lo as int, hi as int)),
            trim_end(mid) == trim_end(s@.subrange(lo as int, hi as int)),
        decreases hi,
    {
        assert(s@.subrange(lo as int, hi as int).take(hi - lo - m) =~= s@.subrange(
            lo as int,
            hi - m,
        ));
        hi -= m;
        m = white_space_suffix(s, lo, hi);
    }
    slice_subrange(s, lo, hi)
}

} // verus!
