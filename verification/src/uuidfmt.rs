//! The canonical text form of a 128-bit identifier: 32 lowercase hex
//! digits in five hyphen-separated groups (8-4-4-4-12), and its parser.
//! The encoding key derivation and the cookie value are built on this
//! form, and the parser is proved to invert the printer exactly.

use vstd::prelude::*;
use vstd::arithmetic::div_mod::{lemma_div_denominator, lemma_fundamental_div_mod};

verus! {

/// `16^k`.
pub open spec fn pow16(k: nat) -> int
    decreases k,
{
    if k == 0 {
        1
    } else {
        16 * pow16((k - 1) as nat)
    }
}

/// Powers of 16 are positive.
pub proof fn lemma_pow16_pos(k: nat)
    ensures
        pow16(k) >= 1,
    decreases k,
{
    if k > 0 {
        lemma_pow16_pos((k - 1) as nat);
    }
}

/// Powers of 16 grow with the exponent.
pub proof fn lemma_pow16_mono(a: nat, b: nat)
    requires
        a <= b,
    ensures
        pow16(a) <= pow16(b),
    decreases b,
{
    if a < b {
        lemma_pow16_mono(a, (b - 1) as nat);
        lemma_pow16_pos((b - 1) as nat);
    }
}

/// The two powers the loops below need as concrete bounds.
pub proof fn lemma_pow16_vals()
    ensures
        pow16(31) == 0x1000_0000_0000_0000_0000_0000_0000_0000int,
        pow16(32) == 0x1_0000_0000_0000_0000_0000_0000_0000_0000int,
{
    reveal_with_fuel(pow16, 33);
}

/// The `j`-th hex digit of `id`, counting from the most significant of
/// the 32 digits.
pub open spec fn nib_of(id: u128, j: int) -> u8
    recommends
        0 <= j < 32,
{
    ((id as int / pow16((31 - j) as nat)) % 16) as u8
}

/// The lowercase ASCII hex digit for a value below 16.
pub open spec fn hex_digit(n: u8) -> u8
    recommends
        n < 16,
{
    if n < 10 {
        (48 + n) as u8
    } else {
        (87 + n) as u8
    }
}

/// The positions of the four hyphens in the canonical form.
pub open spec fn is_hyphen_pos(i: int) -> bool {
    i == 8 || i == 13 || i == 18 || i == 23
}

/// How many hyphens stand strictly before position `i`.
pub open spec fn hyphens_before(i: int) -> int {
    if i <= 8 {
        0
    } else if i <= 13 {
        1
    } else if i <= 18 {
        2
    } else if i <= 23 {
        3
    } else {
        4
    }
}

/// Which hex digit stands at string position `i`.
pub open spec fn nib_index(i: int) -> int {
    i - hyphens_before(i)
}

/// The canonical 36-byte ASCII form of `id`.
pub open spec fn uuid_ascii(id: u128) -> Seq<u8> {
    Seq::new(
        36,
        |i: int|
            if is_hyphen_pos(i) {
                45u8
            } else {
                hex_digit(nib_of(id, nib_index(i)))
            },
    )
}

/// Every byte of the canonical form is printable ASCII.
pub proof fn lemma_uuid_ascii_bytes(id: u128)
    ensures
        uuid_ascii(id).len() == 36,
        forall|k: int| 0 <= k < 36 ==> #[trigger] uuid_ascii(id)[k] < 128,
{
}

/// The lowercase hex digit of a value below 16.
pub fn to_hex_digit(n: u8) -> (r: u8)
    requires
        n < 16,
    ensures
        r == hex_digit(n),
{
    if n < 10 {
        48 + n
    } else {
        87 + n
    }
}

/// Prints `id` in its canonical hyphenated lowercase hex form.
pub fn uuid_to_ascii(id: u128) -> (r: Vec<u8>)
    ensures
        r@ == uuid_ascii(id),
{
    let mut divisor: u128 = 1;
    let mut k: usize = 0;
    while k < 31
        invariant
            k <= 31,
            divisor == pow16(k as nat),
        decreases 31 - k,
    {
        proof {
            lemma_pow16_mono(k as nat + 1, 31);
            lemma_pow16_vals();
            assert(pow16(k as nat + 1) == 16 * pow16(k as nat));
        }
        divisor = divisor * 16;
        k = k + 1;
    }
    let mut out: Vec<u8> = Vec::new();
    let mut i: usize = 0;
    let mut j: usize = 0;
    while i < 36
        invariant
            i <= 36,
            j == nib_index(i as int),
            j <= 32,
            j < 32 ==> divisor == pow16((31 - j) as nat),
            out@.len() == i,
            forall|m: int| 0 <= m < i ==> out@[m] == #[trigger] uuid_ascii(id)[m],
        decreases 36 - i,
    {
        if i == 8 || i == 13 || i == 18 || i == 23 {
            out.push(45u8);
        } else {
            proof {
                lemma_pow16_pos((31 - j) as nat);
            }
            let nib = ((id / divisor) % 16) as u8;
            proof {
                assert(nib == nib_of(id, j as int));
            }
            let d = to_hex_digit(nib);
            out.push(d);
            if j < 31 {
                proof {
                    assert(pow16((31 - j) as nat) == 16 * pow16((30 - j) as nat));
                    lemma_pow16_pos((30 - j) as nat);
                }
                divisor = divisor / 16;
            }
            j = j + 1;
        }
        i = i + 1;
    }
    proof {
        assert(out@ =~= uuid_ascii(id));
    }
    out
}

/// Parses the canonical hyphenated form back to its value.  Inverts
/// `uuid_to_ascii`: the printed form of any identifier parses to exactly
/// that identifier.  Returns `None` on any other input shape.
pub fn parse_uuid_ascii(s: &Vec<u8>) -> (r: Option<u128>)
    ensures
        forall|id: u128| s@ == #[trigger] uuid_ascii(id) ==> r == Some(id),
{
    let ghost gs = s@;
    if s.len() != 36 {
        return None;
    }
    let mut acc: u128 = 0;
    let mut i: usize = 0;
    let mut j: usize = 0;
    proof {
        lemma_pow16_vals();
        assert forall|id: u128| gs == #[trigger] uuid_ascii(id) implies 0 == id as int / pow16(
            32,
        ) by {
            vstd::arithmetic::div_mod::lemma_basic_div(id as int, pow16(32));
        }
    }
    while i < 36
        invariant
            i <= 36,
            gs == s@,
            s@.len() == 36,
            j == nib_index(i as int),
            j <= 32,
            acc < pow16(j as nat),
            forall|id: u128|
                gs == #[trigger] uuid_ascii(id) ==> acc == id as int / pow16((32 - j) as nat),
        decreases 36 - i,
    {
        let b = s[i];
        if i == 8 || i == 13 || i == 18 || i == 23 {
            if b != 45 {
                proof {
                    assert forall|id: u128| gs == #[trigger] uuid_ascii(id) implies false by {
                        assert(uuid_ascii(id)[i as int] == 45);
                    }
                }
                return None;
            }
            i = i + 1;
        } else {
            let nib: u8;
            if 48 <= b && b <= 57 {
                nib = b - 48;
            } else if 97 <= b && b <= 102 {
                nib = b - 87;
            } else {
                proof {
                    assert forall|id: u128| gs == #[trigger] uuid_ascii(id) implies false by {
                        assert(uuid_ascii(id)[i as int] == hex_digit(nib_of(id, j as int)));
                        assert(nib_of(id, j as int) < 16);
                    }
                }
                return None;
            }
            proof {
                lemma_pow16_vals();
                lemma_pow16_mono(j as nat + 1, 32);
                assert(pow16(j as nat + 1) == 16 * pow16(j as nat));
                assert forall|id: u128| gs == #[trigger] uuid_ascii(id) implies acc * 16 + nib
                    == id as int / pow16((32 - (j + 1)) as nat) by {
                    assert(uuid_ascii(id)[i as int] == hex_digit(nib_of(id, j as int)));
                    assert(nib_of(id, j as int) < 16);
                    assert(nib == nib_of(id, j as int));
                    let a = id as int / pow16((31 - j) as nat);
                    lemma_pow16_pos((31 - j) as nat);
                    lemma_fundamental_div_mod(a, 16);
                    lemma_div_denominator(id as int, pow16((31 - j) as nat), 16);
                    assert(pow16((32 - j) as nat) == 16 * pow16((31 - j) as nat));
                    assert(pow16((31 - j) as nat) * 16 == 16 * pow16((31 - j) as nat))
                        by (nonlinear_arith);
                    assert(a / 16 == id as int / pow16((32 - j) as nat));
                    assert(acc == a / 16);
                    assert(a == 16 * (a / 16) + a % 16);
                    assert(nib == a % 16);
                }
            }
            acc = acc * 16 + (nib as u128);
            i = i + 1;
            j = j + 1;
        }
    }
    proof {
        assert forall|id: u128| gs == #[trigger] uuid_ascii(id) implies Some(acc) == Some(
            id,
        ) by {
            assert(j == 32);
            assert(pow16((32 - j) as nat) == 1);
            assert(acc == id as int / 1);
        }
    }
    Some(acc)
}

} // verus!
