//! Byte-level formatting primitives shared by the wire encoder: big-endian
//! 32-bit length prefixes and decimal ASCII numerals, each with its exact
//! inverse, plus a few small verified vector utilities.

use vstd::prelude::*;
use crate::bridge::push_char;

verus! {

/// The four big-endian bytes of a 32-bit value.
pub open spec fn be32_bytes(x: u32) -> Seq<u8> {
    seq![
        ((x >> 24) & 0xff) as u8,
        ((x >> 16) & 0xff) as u8,
        ((x >> 8) & 0xff) as u8,
        (x & 0xff) as u8,
    ]
}

/// The 32-bit value of four big-endian bytes.
pub open spec fn be32_value(s: Seq<u8>) -> u32
    recommends
        s.len() == 4,
{
    ((s[0] as u32) << 24) | ((s[1] as u32) << 16) | ((s[2] as u32) << 8) | (s[3] as u32)
}

/// Reading back the four big-endian bytes of a value yields the value.
pub proof fn lemma_be32_roundtrip(x: u32)
    ensures
        be32_bytes(x).len() == 4,
        be32_value(be32_bytes(x)) == x,
{
    assert(((((x >> 24) & 0xff) as u8) as u32) << 24 | ((((x >> 16) & 0xff) as u8) as u32) << 16
        | ((((x >> 8) & 0xff) as u8) as u32) << 8 | (((x & 0xff) as u8) as u32) == x)
        by (bit_vector);
}

/// The big-endian byte encoding of `x`, as a vector.
pub fn u32_to_be_vec(x: u32) -> (r: Vec<u8>)
    ensures
        r@ == be32_bytes(x),
{
    let mut r: Vec<u8> = Vec::new();
    proof {
        assert((x >> 24) & 0xff < 256 && (x >> 16) & 0xff < 256 && (x >> 8) & 0xff < 256 && x
            & 0xff < 256) by (bit_vector);
    }
    r.push(((x >> 24) & 0xff) as u8);
    r.push(((x >> 16) & 0xff) as u8);
    r.push(((x >> 8) & 0xff) as u8);
    r.push((x & 0xff) as u8);
    proof {
        assert(r@ =~= be32_bytes(x));
    }
    r
}

/// The 32-bit value of the four bytes at `pos`.
pub fn be32_at(v: &Vec<u8>, pos: usize) -> (r: u32)
    requires
        pos + 4 <= v@.len(),
    ensures
        r == be32_value(v@.subrange(pos as int, pos as int + 4)),
{
    let l = v.len();
    assert(pos + 4 <= l);
    let b0 = v[pos];
    let b1 = v[pos + 1];
    let b2 = v[pos + 2];
    let b3 = v[pos + 3];
    proof {
        let s = v@.subrange(pos as int, pos as int + 4);
        assert(s[0] == b0 && s[1] == b1 && s[2] == b2 && s[3] == b3);
        let x0 = b0 as u32;
        let x1 = b1 as u32;
        let x2 = b2 as u32;
        let x3 = b3 as u32;
        assert((x0 << 24 | x1 << 16 | x2 << 8 | x3) <= 0xffff_ffff) by (bit_vector);
    }
    ((b0 as u32) << 24) | ((b1 as u32) << 16) | ((b2 as u32) << 8) | (b3 as u32)
}

/// The decimal ASCII numeral of a non-negative number, most significant
/// digit first, without leading zeroes (a single `0` for zero).
pub open spec fn dec_ascii(n: int) -> Seq<u8>
    recommends
        n >= 0,
    decreases n,
{
    if n < 10 {
        seq![(48 + (if n >= 0 { n } else { 0 })) as u8]
    } else {
        dec_ascii(n / 10).push((48 + n % 10) as u8)
    }
}

/// The number a digit string stands for.
pub open spec fn dec_value(s: Seq<u8>) -> int
    decreases s.len(),
{
    if s.len() == 0 {
        0
    } else {
        dec_value(s.drop_last()) * 10 + (s.last() - 48)
    }
}

/// Every byte of a decimal numeral is an ASCII digit.
pub open spec fn all_digits(s: Seq<u8>) -> bool {
    forall|i: int| 0 <= i < s.len() ==> 48 <= #[trigger] s[i] <= 57
}

/// The numeral of `n` is non-empty, at most 20 digits for a `u64`-sized
/// value, consists of digits, and reads back as `n`.
pub proof fn lemma_dec_ascii_roundtrip(n: int)
    requires
        n >= 0,
    ensures
        dec_ascii(n).len() >= 1,
        all_digits(dec_ascii(n)),
        dec_value(dec_ascii(n)) == n,
    decreases n,
{
    if n < 10 {
        let s = dec_ascii(n);
        assert(s == seq![(48 + n) as u8]);
        assert(s.drop_last() =~= Seq::<u8>::empty());
        assert(dec_value(s) == dec_value(s.drop_last()) * 10 + (s.last() - 48));
        assert(s.last() == (48 + n) as u8 == 48 + n);
    } else {
        lemma_dec_ascii_roundtrip(n / 10);
        let s = dec_ascii(n);
        assert(s == dec_ascii(n / 10).push((48 + n % 10) as u8));
        assert(s.drop_last() =~= dec_ascii(n / 10));
        assert(dec_value(s) == dec_value(dec_ascii(n / 10)) * 10 + n % 10);
    }
}

/// A digit string's value is non-negative and below `10^len`; in
/// particular any prefix of a digit string stands for a number no larger
/// than the whole.
pub proof fn lemma_dec_value_nonneg(s: Seq<u8>)
    requires
        all_digits(s),
    ensures
        dec_value(s) >= 0,
    decreases s.len(),
{
    if s.len() > 0 {
        assert(all_digits(s.drop_last()));
        lemma_dec_value_nonneg(s.drop_last());
    }
}

/// Each prefix of a digit string stands for at most the whole string's
/// value.
pub proof fn lemma_dec_value_prefix_le(s: Seq<u8>, i: int)
    requires
        all_digits(s),
        0 <= i <= s.len(),
    ensures
        dec_value(s.take(i)) <= dec_value(s),
    decreases s.len() - i,
{
    if i < s.len() {
        lemma_dec_value_prefix_le(s, i + 1);
        assert(s.take(i + 1).drop_last() =~= s.take(i));
        assert(all_digits(s.take(i)));
        lemma_dec_value_nonneg(s.take(i));
        assert(dec_value(s.take(i + 1)) == dec_value(s.take(i)) * 10 + (s[i] - 48));
        assert(dec_value(s.take(i)) * 10 >= dec_value(s.take(i)));
    } else {
        assert(s.take(i) =~= s);
    }
}

/// `10^k`.
pub open spec fn pow10(k: nat) -> int
    decreases k,
{
    if k == 0 {
        1
    } else {
        10 * pow10((k - 1) as nat)
    }
}

/// A numeral below `10^k` has at most `k` digits.
pub proof fn lemma_dec_ascii_len(n: int, k: nat)
    requires
        0 <= n,
        n < pow10(k),
        k >= 1,
    ensures
        dec_ascii(n).len() <= k,
    decreases k,
{
    if n >= 10 {
        assert(pow10(1) == 10) by {
            reveal_with_fuel(pow10, 2);
        }
        assert(k >= 2) by {
            if k == 1 {
                assert(n < pow10(1));
            }
        }
        assert(pow10(k) == 10 * pow10((k - 1) as nat));
        vstd::arithmetic::div_mod::lemma_fundamental_div_mod(n, 10);
        assert(10 * (n / 10) <= n);
        assert(n / 10 < pow10((k - 1) as nat));
        lemma_dec_ascii_len(n / 10, (k - 1) as nat);
    }
}

/// A `u64`-sized numeral has at most 20 digits.
pub proof fn lemma_dec_ascii_len20(n: int)
    requires
        0 <= n <= u64::MAX,
    ensures
        dec_ascii(n).len() <= 20,
{
    assert(pow10(20) == 100_000_000_000_000_000_000int) by {
        reveal_with_fuel(pow10, 21);
    }
    lemma_dec_ascii_len(n, 20);
}

/// The decimal numeral of `n`, as ASCII bytes.
pub fn u64_to_dec(n: u64) -> (r: Vec<u8>)
    ensures
        r@ == dec_ascii(n as int),
    decreases n,
{
    if n < 10 {
        let mut r: Vec<u8> = Vec::new();
        r.push(48 + (n as u8));
        proof {
            assert(r@ =~= dec_ascii(n as int));
        }
        r
    } else {
        let mut r = u64_to_dec(n / 10);
        r.push(48 + ((n % 10) as u8));
        r
    }
}

/// Parses a decimal numeral.  Inverts `u64_to_dec`: the numeral of any
/// `u64` parses back to exactly that value.  Returns `None` on an empty
/// string, a non-digit byte, or a value above `u64::MAX`.
pub fn parse_u64_dec(s: &Vec<u8>) -> (r: Option<u64>)
    ensures
        forall|n: u64| s@ == #[trigger] dec_ascii(n as int) ==> r == Some(n),
{
    let ghost gs = s@;
    if s.len() == 0 {
        proof {
            assert forall|n: u64| gs == #[trigger] dec_ascii(n as int) implies false by {
                lemma_dec_ascii_roundtrip(n as int);
            }
        }
        return None;
    }
    let mut i: usize = 0;
    let mut acc: u64 = 0;
    while i < s.len()
        invariant
            0 <= i <= s@.len(),
            gs == s@,
            all_digits(s@.take(i as int)),
            acc == dec_value(s@.take(i as int)),
        decreases s@.len() - i,
    {
        let b = s[i];
        if b < 48 || b > 57 {
            proof {
                assert forall|n: u64| gs == #[trigger] dec_ascii(n as int) implies false by {
                    lemma_dec_ascii_roundtrip(n as int);
                    assert(48 <= gs[i as int] <= 57);
                }
            }
            return None;
        }
        let d = b - 48;
        if acc > (u64::MAX - (d as u64)) / 10 {
            proof {
                assert forall|n: u64| gs == #[trigger] dec_ascii(n as int) implies false by {
                    lemma_dec_ascii_roundtrip(n as int);
                    lemma_parse_would_succeed(gs, n);
                    assert(10 * dec_value(gs.take(i as int)) + (gs[i as int] - 48) <= u64::MAX);
                }
            }
            return None;
        }
        proof {
            lemma_dec_value_nonneg(s@.take(i as int));
            assert(s@.take(i as int + 1).drop_last() =~= s@.take(i as int));
        }
        acc = acc * 10 + (d as u64);
        i = i + 1;
    }
    proof {
        assert(s@.take(s@.len() as int) =~= s@);
        assert forall|n: u64| gs == #[trigger] dec_ascii(n as int) implies Some(acc) == Some(
            n,
        ) by {
            lemma_dec_ascii_roundtrip(n as int);
        }
    }
    Some(acc)
}

/// Helper for `parse_u64_dec`: on the numeral of a `u64`, no step of the
/// accumulation can overflow, so the parse cannot fail.
proof fn lemma_parse_would_succeed(s: Seq<u8>, n: u64)
    requires
        s == dec_ascii(n as int),
    ensures
        forall|i: int|
            0 <= i < s.len() ==> 10 * dec_value(#[trigger] s.take(i)) + (s[i] - 48) <= u64::MAX,
{
    lemma_dec_ascii_roundtrip(n as int);
    assert forall|i: int|
        0 <= i < s.len() implies 10 * dec_value(#[trigger] s.take(i)) + (s[i] - 48)
        <= u64::MAX by {
        lemma_dec_value_prefix_le(s, i + 1);
        assert(s.take(i + 1).drop_last() =~= s.take(i));
        assert(dec_value(s.take(i + 1)) == dec_value(s.take(i)) * 10 + (s[i] - 48));
        assert(dec_value(s.take(i + 1)) <= n);
    }
}

/// A copy of `v[a..b]`.
pub fn take_range(v: &Vec<u8>, a: usize, b: usize) -> (r: Vec<u8>)
    requires
        a <= b <= v@.len(),
    ensures
        r@ == v@.subrange(a as int, b as int),
{
    let mut r: Vec<u8> = Vec::new();
    let mut i: usize = a;
    while i < b
        invariant
            a <= i <= b <= v@.len(),
            r@ == v@.subrange(a as int, i as int),
        decreases b - i,
    {
        r.push(v[i]);
        proof {
            assert(r@ =~= v@.subrange(a as int, i as int + 1));
        }
        i = i + 1;
    }
    r
}

/// Appends all of `src` to `dst`.
pub fn append_bytes(dst: &mut Vec<u8>, src: &Vec<u8>)
    ensures
        final(dst)@ == old(dst)@ + src@,
{
    let mut i: usize = 0;
    while i < src.len()
        invariant
            0 <= i <= src@.len(),
            dst@ == old(dst)@ + src@.take(i as int),
        decreases src@.len() - i,
    {
        dst.push(src[i]);
        proof {
            assert(old(dst)@ + src@.take(i as int + 1) =~= (old(dst)@ + src@.take(i as int)).push(
                src@[i as int],
            ));
        }
        i = i + 1;
    }
    proof {
        assert(src@.take(src@.len() as int) =~= src@);
    }
}

/// Whether two byte vectors hold the same bytes.
pub fn bytes_eq(a: &Vec<u8>, b: &Vec<u8>) -> (r: bool)
    ensures
        r == (a@ == b@),
{
    if a.len() != b.len() {
        return false;
    }
    let mut i: usize = 0;
    while i < a.len()
        invariant
            0 <= i <= a@.len(),
            a@.len() == b@.len(),
            forall|j: int| 0 <= j < i ==> a@[j] == b@[j],
        decreases a@.len() - i,
    {
        if a[i] != b[i] {
            return false;
        }
        i = i + 1;
    }
    proof {
        assert(a@ =~= b@);
    }
    true
}

/// The first index at or after `from` where `pat` occurs in `hay`, if
/// any: `Some(i)` points at a match and nothing between `from` and `i`
/// matches; `None` means no match anywhere at or after `from`.
pub fn find_sub(hay: &Vec<u8>, pat: &Vec<u8>, from: usize) -> (r: Option<usize>)
    requires
        pat@.len() >= 1,
        from <= hay@.len(),
    ensures
        r matches Some(i) ==> from <= i && i + pat@.len() <= hay@.len() && hay@.subrange(
            i as int,
            i + pat@.len(),
        ) == pat@ && forall|j: int|
            from <= j < i ==> #[trigger] hay@.subrange(j, j + pat@.len()) != pat@,
        r is None ==> forall|j: int|
            from <= j && j + pat@.len() <= hay@.len() ==> #[trigger] hay@.subrange(
                j,
                j + pat@.len(),
            ) != pat@,
{
    if pat.len() > hay.len() - from {
        proof {
            assert forall|j: int|
                from <= j && j + pat@.len() <= hay@.len() implies #[trigger] hay@.subrange(
                j,
                j + pat@.len(),
            ) != pat@ by {
                assert(j + pat@.len() > hay@.len());
            }
        }
        return None;
    }
    let mut i: usize = from;
    let hl = hay.len();
    let last = hl - pat.len();
    while i <= last
        invariant
            from <= i <= last + 1,
            last + pat@.len() == hay@.len(),
            hay@.len() <= usize::MAX,
            pat@.len() >= 1,
            forall|j: int| from <= j < i ==> #[trigger] hay@.subrange(j, j + pat@.len()) != pat@,
        decreases last - i + 1,
    {
        let w = take_range(hay, i, i + pat.len());
        if bytes_eq(&w, pat) {
            return Some(i);
        }
        i = i + 1;
    }
    proof {
        assert forall|j: int|
            from <= j && j + pat@.len() <= hay@.len() implies #[trigger] hay@.subrange(
            j,
            j + pat@.len(),
        ) != pat@ by {
            assert(j < i);
        }
    }
    None
}

/// The characters an ASCII byte string spells.
pub open spec fn ascii_chars(s: Seq<u8>) -> Seq<char> {
    Seq::new(s.len(), |i: int| s[i] as char)
}

/// Turns ASCII bytes into the string of the same characters.
pub fn ascii_vec_to_string(v: &Vec<u8>) -> (r: String)
    requires
        forall|i: int| 0 <= i < v@.len() ==> #[trigger] v@[i] < 128,
    ensures
        r@ == ascii_chars(v@),
{
    let mut r = String::new();
    let mut i: usize = 0;
    while i < v.len()
        invariant
            0 <= i <= v@.len(),
            forall|k: int| 0 <= k < v@.len() ==> #[trigger] v@[k] < 128,
            r@.len() == i,
            forall|k: int| 0 <= k < i ==> r@[k] == #[trigger] v@[k] as char,
        decreases v@.len() - i,
    {
        push_char(&mut r, v[i] as char);
        i = i + 1;
    }
    proof {
        assert(r@ =~= ascii_chars(v@));
    }
    r
}

} // verus!
