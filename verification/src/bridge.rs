//! The trusted boundary to outside crates and to the few pieces of std
//! that vstd gives no specification.
//!
//! Every function here is `external_body`: its contract is believed, not
//! proved, so each one states only what the called crate's source or
//! documentation plainly shows.  Results that are functions of the
//! arguments alone but have no short description (a ciphertext, a
//! sanitised document, a base64 string, a case mapping) are given
//! uninterpreted names; the verified logic reasons through those names.

use vstd::prelude::*;
use base64::Engine;
use cbc::cipher::block_padding::Pkcs7;
use cbc::cipher::{BlockModeDecrypt, BlockModeEncrypt, KeyIvInit};
use crate::score::Classification;

verus! {

/// The AES-128-CBC ciphertext, with PKCS#7 padding, of `pt` under `key`
/// and `iv`: a function of its arguments alone.
pub uninterp spec fn aes_cbc_enc(key: Seq<u8>, iv: Seq<u8>, pt: Seq<u8>) -> Seq<u8>;

/// What ammonia's empty builder leaves of a document: the text with every
/// HTML tag stripped.  A function of the text alone.
pub uninterp spec fn cleaned_of(s: Seq<char>) -> Seq<char>;

/// The standard padded base64 encoding of `b`, as ASCII bytes.
pub uninterp spec fn b64_of(b: Seq<u8>) -> Seq<u8>;

/// The Unicode lowercase mapping of `s`.
pub uninterp spec fn lower_of(s: Seq<char>) -> Seq<char>;

/// `s` with leading and trailing whitespace removed.
pub uninterp spec fn trimmed_of(s: Seq<char>) -> Seq<char>;

/// Relies on `cbc::Encryptor::<aes::Aes128>::encrypt_padded_vec::<Pkcs7>`:
/// deterministic in key, iv and plaintext, and the ciphertext is the
/// padded plaintext's length, `(pt.len() / 16 + 1) * 16` bytes.
#[verifier::external_body]
pub(crate) fn aes_cbc_encrypt(key: &Vec<u8>, iv: &Vec<u8>, pt: &Vec<u8>) -> (r: Vec<u8>)
    requires
        key@.len() == 16,
        iv@.len() == 16,
        pt@.len() + 16 <= usize::MAX,
    ensures
        r@ == aes_cbc_enc(key@, iv@, pt@),
        r@.len() == ((pt@.len() / 16) + 1) * 16,
{
    let key_arr: [u8; 16] = key.as_slice().try_into().unwrap();
    let iv_arr: [u8; 16] = iv.as_slice().try_into().unwrap();
    let enc = cbc::Encryptor::<aes::Aes128>::new(&key_arr.into(), &iv_arr.into());
    enc.encrypt_padded_vec::<Pkcs7>(pt.as_slice())
}

/// Relies on `cbc::Decryptor::<aes::Aes128>::decrypt_padded_vec::<Pkcs7>`:
/// it inverts `encrypt_padded_vec` under the same key and iv, so a
/// ciphertext that is the encryption of some plaintext decrypts to
/// exactly that plaintext.
#[verifier::external_body]
pub(crate) fn aes_cbc_decrypt(key: &Vec<u8>, iv: &Vec<u8>, ct: &Vec<u8>) -> (r: Option<Vec<u8>>)
    requires
        key@.len() == 16,
        iv@.len() == 16,
    ensures
        forall|pt: Seq<u8>|
            ct@ == #[trigger] aes_cbc_enc(key@, iv@, pt) ==> r is Some && r.unwrap()@ == pt,
{
    let key_arr: [u8; 16] = key.as_slice().try_into().unwrap();
    let iv_arr: [u8; 16] = iv.as_slice().try_into().unwrap();
    let dec = cbc::Decryptor::<aes::Aes128>::new(&key_arr.into(), &iv_arr.into());
    dec.decrypt_padded_vec::<Pkcs7>(ct.as_slice()).ok()
}

/// Relies on `rand::random`: a fresh 16-byte initialisation vector;
/// nothing is promised of its value.
#[verifier::external_body]
pub(crate) fn random_iv() -> (r: Vec<u8>)
    ensures
        r@.len() == 16,
{
    rand::random::<[u8; 16]>().to_vec()
}

/// Relies on `rand::random`: an 8-byte noise block; nothing is promised
/// of its value.
#[verifier::external_body]
pub(crate) fn random_noise() -> (r: Vec<u8>)
    ensures
        r@.len() == 8,
{
    rand::random::<[u8; 8]>().to_vec()
}

/// Relies on `rand::random_range`: a value drawn from `[0, n)`; only
/// membership in the range is promised.
#[verifier::external_body]
pub(crate) fn rand_below(n: usize) -> (r: usize)
    requires
        0 < n,
    ensures
        r < n,
{
    rand::random_range(0..n)
}

/// Relies on `uuid::Uuid::new_v4`: a freshly drawn random identifier,
/// returned as its 128-bit value; nothing is promised of it.
#[verifier::external_body]
pub(crate) fn fresh_uuid_id() -> u128 {
    uuid::Uuid::new_v4().as_u128()
}

/// Relies on `ammonia::Builder::empty().clean`: strips all HTML from the
/// text, a function of the text alone; an empty input stays empty.
#[verifier::external_body]
pub(crate) fn html_clean(s: &str) -> (r: String)
    ensures
        r@ == cleaned_of(s@),
        s@.len() == 0 ==> r@.len() == 0,
{
    ammonia::Builder::empty().clean(s).to_string()
}

/// Relies on `rustrict::Censor::from_str(..).analyze()`: the returned
/// `Type` bitset is probed once per category to fill the classification;
/// nothing is assumed about which flags come back.
#[verifier::external_body]
pub(crate) fn analyze_content(s: &str) -> Classification {
    let t = rustrict::Censor::from_str(s).analyze();
    Classification {
        profane: t.is(rustrict::Type::PROFANE),
        offensive: t.is(rustrict::Type::OFFENSIVE),
        sexual: t.is(rustrict::Type::SEXUAL),
        mean: t.is(rustrict::Type::MEAN),
        evasive: t.is(rustrict::Type::EVASIVE),
        spam: t.is(rustrict::Type::SPAM),
        mild: t.is(rustrict::Type::MILD),
        moderate: t.is(rustrict::Type::MODERATE),
        severe: t.is(rustrict::Type::SEVERE),
    }
}

/// Relies on base64's `STANDARD` engine `encode`: deterministic output
/// over the standard alphabet (letters, digits, `+`, `/`, `=` — all
/// ASCII, never `;` or `)`), four bytes for every started group of
/// three input bytes.
#[verifier::external_body]
pub(crate) fn b64_encode(b: &Vec<u8>) -> (r: Vec<u8>)
    ensures
        r@ == b64_of(b@),
        r@.len() == 4 * ((b@.len() + 2) / 3),
        forall|i: int| 0 <= i < r@.len() ==> r@[i] < 128 && r@[i] != 59 && r@[i] != 41,
{
    base64::engine::general_purpose::STANDARD.encode(b.as_slice()).into_bytes()
}

/// Relies on base64's `STANDARD` engine `decode`: it inverts `encode`,
/// so the encoding of any byte string decodes to exactly those bytes.
#[verifier::external_body]
pub(crate) fn b64_decode(s: &Vec<u8>) -> (r: Option<Vec<u8>>)
    ensures
        forall|b: Seq<u8>| s@ == #[trigger] b64_of(b) ==> r is Some && r.unwrap()@ == b,
{
    base64::engine::general_purpose::STANDARD.decode(s.as_slice()).ok()
}

/// Relies on `str::to_lowercase`: the Unicode lowercase mapping, a
/// function of the characters alone; the result is empty exactly when
/// the input is.
#[verifier::external_body]
pub(crate) fn lowercase(s: &str) -> (r: String)
    ensures
        r@ == lower_of(s@),
        r@.len() == 0 <==> s@.len() == 0,
{
    s.to_lowercase()
}

/// Relies on `str::trim`: removes leading and trailing whitespace, a
/// function of the characters alone; never longer than its input.
#[verifier::external_body]
pub(crate) fn trim(s: &str) -> (r: String)
    ensures
        r@ == trimmed_of(s@),
        r@.len() <= s@.len(),
{
    s.trim().to_owned()
}

/// Relies on `String::push`: appends one character.
#[verifier::external_body]
pub(crate) fn push_char(s: &mut String, c: char)
    ensures
        final(s)@ == old(s)@.push(c),
{
    s.push(c);
}

/// Relies on `String::from_utf8`: succeeds exactly on valid UTF-8 and
/// returns the string whose UTF-8 encoding is the input.
#[verifier::external_body]
pub(crate) fn string_from_utf8(v: Vec<u8>) -> (r: Option<String>)
    ensures
        r matches Some(s) ==> vstd::utf8::encode_utf8(s@) == v@,
        vstd::utf8::valid_utf8(v@) ==> r is Some,
{
    String::from_utf8(v).ok()
}

} // verus!
