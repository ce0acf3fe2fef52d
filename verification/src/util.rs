//! Small request-level helpers: the extractor marker types, referral
//! code generation, and the two command-line argument parsers.

use vstd::prelude::*;
use vstd::string::{StrSliceExecFns, StringExecFns};
use crate::bridge::{b64_decode, b64_of, lower_of, lowercase, push_char, rand_below, trim, trimmed_of};

verus! {

/// Marks a response produced from a request-handling error, so that the
/// outermost layer can replace it.
#[derive(Clone)]
pub struct WebErrorExtensionMarker;

/// Wraps an extraction that is allowed to fail: the value, or nothing.
pub struct OptionalExtractor<T>(pub Option<T>);

/// Joins two words with a separator character.
pub fn make_code(first: &str, sep: char, second: &str) -> (r: String)
    ensures
        r@ == first@ + seq![sep] + second@,
{
    let mut s = String::from_str(first);
    push_char(&mut s, sep);
    s.append(second);
    proof {
        assert(s@ =~= first@ + seq![sep] + second@);
    }
    s
}

/// Draws a referral code: two distinct words from the list, joined by a
/// randomly chosen separator.
pub fn generate_code(words: &Vec<String>) -> (r: String)
    requires
        words@.len() >= 2,
    ensures
        exists|i: int, j: int, sep: char|
            0 <= i < words@.len() && 0 <= j < words@.len() && i != j && (sep == '-' || sep == '_'
                || sep == '.') && r@ == words@[i]@ + seq![sep] + words@[j]@,
{
    let i = rand_below(words.len());
    let j0 = rand_below(words.len() - 1);
    let j = if j0 >= i {
        j0 + 1
    } else {
        j0
    };
    let sep_idx = rand_below(3);
    let sep: char = if sep_idx == 0 {
        '-'
    } else if sep_idx == 1 {
        '_'
    } else {
        '.'
    };
    let r = make_code(words[i].as_str(), sep, words[j].as_str());
    proof {
        assert(0 <= i < words@.len() && 0 <= j < words@.len() && i != j && (sep == '-' || sep
            == '_' || sep == '.') && r@ == words@[i as int]@ + seq![sep] + words@[j as int]@);
    }
    r
}

/// Trims and lowercases an argument; rejects one that is empty after
/// trimming.
pub fn lowercase_non_empty_string_parser(s: &str) -> (r: Result<String, &'static str>)
    ensures
        r matches Ok(x) ==> x@ == lower_of(trimmed_of(s@)) && x@.len() > 0,
        r is Err ==> lower_of(trimmed_of(s@)).len() == 0,
{
    let t = trim(s);
    let l = lowercase(t.as_str());
    if l.as_str().is_empty() {
        Err("empty string")
    } else {
        Ok(l)
    }
}

/// The marker that hides the initialisation vector inside a
/// browser-looking header: the ASCII bytes of
/// `Mozilla/5.0 (Windows NT 10.0; Win64; x64; `.
pub open spec fn iv_marker_bytes() -> Seq<u8> {
    seq![
        77u8, 111, 122, 105, 108, 108, 97, 47, 53, 46, 48, 32, 40, 87, 105, 110, 100, 111, 119,
        115, 32, 78, 84, 32, 49, 48, 46, 48, 59, 32, 87, 105, 110, 54, 52, 59, 32, 120, 54, 52,
        59, 32,
    ]
}

/// The marker bytes, as a vector.
fn iv_marker_vec() -> (r: Vec<u8>)
    ensures
        r@ == iv_marker_bytes(),
        r@.len() == 42,
{
    let r: Vec<u8> = vec![
        77u8, 111, 122, 105, 108, 108, 97, 47, 53, 46, 48, 32, 40, 87, 105, 110, 100, 111, 119,
        115, 32, 78, 84, 32, 49, 48, 46, 48, 59, 32, 87, 105, 110, 54, 52, 59, 32, 120, 54, 52,
        59, 32,
    ];
    proof {
        assert(r@ =~= iv_marker_bytes());
    }
    r
}

/// Whether `ua` carries the base64 of `ivb` at position `p`: the first
/// occurrence of the marker stands there, followed by the base64 bytes
/// (which, as base64, nowhere hold a closing parenthesis) and a closing
/// parenthesis.
pub open spec fn iv_header_shape(ua: Seq<u8>, ivb: Seq<u8>, p: int) -> bool {
    let b = b64_of(ivb);
    0 <= p && p + 43 + b.len() <= ua.len() && ua.subrange(p, p + 42) == iv_marker_bytes()
        && ua.subrange(p + 42, p + 42 + b.len() as int) == b && ua[p + 42 + b.len()] == 41 && (
    forall|x: int| 0 <= x < b.len() ==> #[trigger] b[x] != 41) && (forall|j: int|
        0 <= j < p ==> #[trigger] ua.subrange(j, j + 42) != iv_marker_bytes())
}

/// The message body and initialisation vector a submission request
/// carries, lifted out of two disguised headers: the body as base64 in
/// one header, the iv as base64 tucked behind a browser-looking marker
/// in another.
pub struct MessageAndIvFromHeaders(pub Vec<u8>, pub Vec<u8>);

/// Why a submission request's headers were rejected.
#[derive(Clone, Copy, Debug, PartialEq, Eq, Structural)]
pub enum HeaderError {
    /// The marker that precedes the iv is missing.
    MissingIv,
    /// The body header does not decode as base64.
    BadContentEncoding,
    /// The decoded body exceeds 1024 bytes.
    ContentTooLong,
    /// The iv segment does not decode as base64.
    BadIvEncoding,
    /// The decoded iv is not 16 bytes.
    BadIvLength,
}

impl MessageAndIvFromHeaders {
    /// Lifts the encrypted body and iv out of the two header values.
    /// For headers of the expected shape — the body header the base64
    /// of the body, the other holding the marker anywhere, then the
    /// base64 of the iv and a closing parenthesis — the outcome is
    /// pinned down: too long a body or a wrongly sized iv gives its
    /// error, anything else succeeds with exactly the encoded values.
    pub fn from_header_values(content_b64: &Vec<u8>, uses_agent: &Vec<u8>) -> (r: Result<
        MessageAndIvFromHeaders,
        HeaderError,
    >)
        ensures
            r matches Ok(m) ==> m.0@.len() <= 1024 && m.1@.len() == 16,
            forall|cb: Seq<u8>, ivb: Seq<u8>, p: int|
                (content_b64@ == #[trigger] b64_of(cb) && #[trigger] iv_header_shape(
                    uses_agent@,
                    ivb,
                    p,
                )) ==> (if cb.len() > 1024 {
                    r == Err::<MessageAndIvFromHeaders, HeaderError>(HeaderError::ContentTooLong)
                } else if ivb.len() != 16 {
                    r == Err::<MessageAndIvFromHeaders, HeaderError>(HeaderError::BadIvLength)
                } else {
                    r matches Ok(m) && m.0@ == cb && m.1@ == ivb
                }),
    {
        let ghost gua = uses_agent@;
        let ghost gcb = content_b64@;
        let marker = iv_marker_vec();
        let found = crate::bytesfmt::find_sub(uses_agent, &marker, 0);
        if found.is_none() {
            proof {
                assert forall|cb: Seq<u8>, ivb: Seq<u8>, p: int|
                    gcb == #[trigger] b64_of(cb) && #[trigger] iv_header_shape(
                    gua,
                    ivb,
                    p,
                ) implies false by {
                    let ml = marker@.len() as int;
                    assert(gua.subrange(p, p + ml) == iv_marker_bytes());
                    assert(gua.subrange(p, p + ml) != marker@);
                }
            }
            return Err(HeaderError::MissingIv);
        }
        let at = found.unwrap();
        let ul = uses_agent.len();
        assert(at + marker@.len() <= ul);
        let seg_start = at + marker.len();
        let close: Vec<u8> = vec![41u8];
        let seg_end: usize;
        let close_found = crate::bytesfmt::find_sub(uses_agent, &close, seg_start);
        match close_found {
            Some(e) => {
                seg_end = e;
            },
            None => {
                seg_end = uses_agent.len();
            },
        }
        let seg = crate::bytesfmt::take_range(uses_agent, seg_start, seg_end);
        let content = crate::bridge::b64_decode(content_b64);
        if content.is_none() {
            proof {
                assert forall|cb: Seq<u8>, ivb: Seq<u8>, p: int|
                    gcb == #[trigger] b64_of(cb) && #[trigger] iv_header_shape(
                    gua,
                    ivb,
                    p,
                ) implies false by {
                }
            }
            return Err(HeaderError::BadContentEncoding);
        }
        let content = content.unwrap();
        if content.len() > 1024 {
            return Err(HeaderError::ContentTooLong);
        }
        proof {
            assert forall|cb: Seq<u8>, ivb: Seq<u8>, p: int|
                gcb == #[trigger] b64_of(cb) && #[trigger] iv_header_shape(
                gua,
                ivb,
                p,
            ) implies seg@ == b64_of(ivb) && content@ == cb by {
                let b = b64_of(ivb);
                let bl = b.len() as int;
                let ml = marker@.len() as int;
                assert(marker@ == iv_marker_bytes());
                assert(at == p) by {
                    assert(gua.subrange(p, p + ml) == marker@);
                    if at < p {
                        assert(gua.subrange(at as int, at as int + ml) == marker@);
                        assert(gua.subrange(at as int, at as int + 42) != iv_marker_bytes());
                    }
                    if at > p {
                        assert(gua.subrange(p, p + ml) != marker@);
                    }
                }
                assert forall|j: int| p + 42 <= j < p + 42 + bl implies gua[j] == b[j - (p
                    + 42)] by {
                    assert(gua.subrange(p + 42, p + 42 + bl)[j - (p + 42)] == gua[j]);
                }
                assert(close_found == Some((p + 42 + bl) as usize)) by {
                    let cl = close@.len() as int;
                    assert(close@ =~= seq![41u8]);
                    assert(gua.subrange(p + 42 + bl, p + 42 + bl + cl) =~= seq![41u8]);
                    if close_found is None {
                        assert(gua.subrange(p + 42 + bl, p + 42 + bl + cl) != close@);
                        assert(false);
                    }
                    let e = close_found.unwrap() as int;
                    if e < p + 42 + bl {
                        assert(gua.subrange(e, e + cl) == close@);
                        assert(gua.subrange(e, e + cl)[0] == gua[e]);
                        assert(gua[e] == 41);
                        assert(false);
                    }
                    if e > p + 42 + bl {
                        assert(gua.subrange(p + 42 + bl, p + 42 + bl + cl) != close@);
                        assert(false);
                    }
                }
                assert(seg@ =~= b);
            }
        }
        let iv = crate::bridge::b64_decode(&seg);
        if iv.is_none() {
            proof {
                assert forall|cb: Seq<u8>, ivb: Seq<u8>, p: int|
                    gcb == #[trigger] b64_of(cb) && #[trigger] iv_header_shape(
                    gua,
                    ivb,
                    p,
                ) implies false by {
                }
            }
            return Err(HeaderError::BadIvEncoding);
        }
        let iv = iv.unwrap();
        if iv.len() != 16 {
            return Err(HeaderError::BadIvLength);
        }
        Ok(MessageAndIvFromHeaders(content, iv))
    }
}

/// Whether a character is an ASCII decimal digit.
pub open spec fn is_digit_char(c: char) -> bool {
    '0' <= c && c <= '9'
}

/// Whether every character is an ASCII decimal digit.
pub open spec fn all_digit_chars(s: Seq<char>) -> bool {
    forall|i: int| 0 <= i < s.len() ==> is_digit_char(#[trigger] s[i])
}

/// The number a decimal digit string stands for.
pub open spec fn digits_val(s: Seq<char>) -> int
    decreases s.len(),
{
    if s.len() == 0 {
        0
    } else {
        digits_val(s.drop_last()) * 10 + (s.last() as int - 48)
    }
}

/// What `i8::from_str` accepts: an optional sign followed by one or
/// more decimal digits, the value within the type's range.
pub open spec fn spec_parse_i8(s: Seq<char>) -> Option<i8> {
    if s.len() == 0 {
        None
    } else {
        let neg = s[0] == '-';
        let ds = if s[0] == '-' || s[0] == '+' {
            s.drop_first()
        } else {
            s
        };
        if ds.len() == 0 || !all_digit_chars(ds) {
            None
        } else if neg {
            if digits_val(ds) <= 128 {
                Some((-digits_val(ds)) as i8)
            } else {
                None
            }
        } else {
            if digits_val(ds) <= 127 {
                Some(digits_val(ds) as i8)
            } else {
                None
            }
        }
    }
}

/// A digit string's value is non-negative.
pub proof fn lemma_digits_val_nonneg(s: Seq<char>)
    requires
        all_digit_chars(s),
    ensures
        digits_val(s) >= 0,
    decreases s.len(),
{
    if s.len() > 0 {
        assert(all_digit_chars(s.drop_last()));
        lemma_digits_val_nonneg(s.drop_last());
    }
}

/// Parses a signed decimal numeral exactly as `i8::from_str` does.
pub fn parse_i8(s: &str) -> (r: Option<i8>)
    ensures
        r == spec_parse_i8(s@),
{
    let n = s.unicode_len();
    if n == 0 {
        return None;
    }
    let c0 = s.get_char(0);
    let neg = c0 == '-';
    let start: usize = if c0 == '-' || c0 == '+' {
        1
    } else {
        0
    };
    if n == start {
        return None;
    }
    let ghost ds = if s@[0] == '-' || s@[0] == '+' {
        s@.drop_first()
    } else {
        s@
    };
    proof {
        assert(ds =~= s@.subrange(start as int, n as int));
    }
    let mut k: usize = start;
    let mut acc: u32 = 0;
    while k < n
        invariant
            start <= k <= n,
            n == s@.len(),
            start == 0 || start == 1,
            (start == 1) == (s@[0] == '-' || s@[0] == '+'),
            ds == (if s@[0] == '-' || s@[0] == '+' {
                s@.drop_first()
            } else {
                s@
            }),
            ds =~= s@.subrange(start as int, n as int),
            all_digit_chars(ds.take((k - start) as int)),
            (acc <= 300 && acc == digits_val(ds.take((k - start) as int))) || (acc == 301
                && digits_val(ds.take((k - start) as int)) >= 301),
        decreases n - k,
    {
        let c = s.get_char(k);
        if c < '0' || c > '9' {
            proof {
                assert(ds[(k - start) as int] == s@[k as int]);
                assert(!is_digit_char(ds[(k - start) as int]));
            }
            return None;
        }
        let d = (c as u32) - 48;
        proof {
            assert(ds.take((k - start) as int + 1).drop_last() =~= ds.take((k - start) as int));
            assert(ds.take((k - start) as int + 1).last() == ds[(k - start) as int]);
            assert(ds[(k - start) as int] == s@[k as int]);
            if acc <= 300 {
                lemma_digits_val_nonneg(ds.take((k - start) as int));
            }
        }
        let new_acc = acc * 10 + d;
        if new_acc > 300 {
            acc = 301;
        } else {
            acc = new_acc;
        }
        k = k + 1;
    }
    proof {
        assert(ds.take((n - start) as int) =~= ds);
    }
    if neg {
        if acc <= 128 {
            Some((-(acc as i32)) as i8)
        } else {
            None
        }
    } else {
        if acc <= 127 {
            Some(acc as i8)
        } else {
            None
        }
    }
}

/// Accepts only a numeral standing for a strictly positive `i8`.
pub fn non_zero_i8_parser(s: &str) -> (r: Result<i8, &'static str>)
    ensures
        r matches Ok(v) ==> spec_parse_i8(s@) == Some(v) && v > 0,
        r is Err ==> !(spec_parse_i8(s@) matches Some(v) && v > 0),
{
    match parse_i8(s) {
        Some(v) => {
            if v > 0 {
                Ok(v)
            } else {
                Err("not a positive integer")
            }
        },
        None => Err("not a positive integer"),
    }
}

} // verus!
