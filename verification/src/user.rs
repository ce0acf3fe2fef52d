//! The user model.
//!
//! A user is an identifier, a referral code and two moderation flags.  The
//! identifier is the 128-bit value of the user's UUID; everything derived
//! from it (the outbound encryption key, the encoded cookie value) is a
//! function of that value.

use vstd::prelude::*;
use vstd::string::StringExecFns;
use crate::bridge::{b64_decode, b64_of, b64_encode, cleaned_of, fresh_uuid_id, html_clean};
use crate::bytesfmt::{ascii_chars, ascii_vec_to_string, take_range};
use crate::uuidfmt::{lemma_uuid_ascii_bytes, parse_uuid_ascii, uuid_ascii, uuid_to_ascii};

verus! {

/// The outbound encryption key derived from a user identifier: the first
/// 16 bytes of the identifier's canonical text form.  Deterministic and
/// not secret from the server — an obfuscation layer against casual
/// network inspection, not a confidentiality boundary.
pub open spec fn user_key(id: u128) -> Seq<u8> {
    uuid_ascii(id).take(16)
}

/// A registered user, reduced to what the core logic reads.
pub struct User {
    /// The 128-bit value of the user's unique identifier.
    pub id: u128,
    /// The user's referral code.
    pub code: String,
    /// Privileged: bypasses every policy check and receives plain-text
    /// event payloads.
    pub admin: bool,
    /// Banned: every submission is hidden.
    pub banned: bool,
}

impl User {
    /// The user's outbound encryption key.
    pub fn encryption_key(&self) -> (r: Vec<u8>)
        ensures
            r@ == user_key(self.id),
            r@.len() == 16,
    {
        let a = uuid_to_ascii(self.id);
        let r = take_range(&a, 0, 16);
        proof {
            assert(r@ =~= user_key(self.id));
        }
        r
    }

    /// The base64 form of the user's identifier text, as set in the
    /// session cookie.
    pub fn encoded_id(&self) -> (r: String)
        ensures
            r@ == ascii_chars(b64_of(uuid_ascii(self.id))),
    {
        let a = uuid_to_ascii(self.id);
        let e = b64_encode(&a);
        ascii_vec_to_string(&e)
    }

    /// The path a known user is redirected to: `/u/` followed by the
    /// user's referral code.
    pub fn referral_path(&self) -> (r: String)
        ensures
            r@ == "/u/"@ + self.code@,
    {
        let mut s = String::from_str("/u/");
        s.append(self.code.as_str());
        s
    }

    /// The session cookie header value carrying the encoded identifier.
    pub fn cookie_value(&self) -> (r: String)
        ensures
            r@ == "__cf="@ + ascii_chars(b64_of(uuid_ascii(self.id))) + "; Path=/; Max-Age=31536000"@,
    {
        let mut s = String::from_str("__cf=");
        let e = self.encoded_id();
        s.append(e.as_str());
        s.append("; Path=/; Max-Age=31536000");
        s
    }
}

/// The cookie-name marker ahead of the encoded identifier: the ASCII
/// bytes of `__cf=`.
pub open spec fn cf_marker_bytes() -> Seq<u8> {
    seq![95u8, 95, 99, 102, 61]
}

/// Whether the cookie header bytes carry the encoded identifier `id` at
/// position `p`: the first `__cf=` stands there, followed by the base64
/// of the identifier's text (which, as base64, nowhere holds `;`),
/// terminated by a semicolon or by the end of the header.
pub open spec fn cookie_shape_at(ck: Seq<u8>, id: u128, p: int) -> bool {
    let b = b64_of(uuid_ascii(id));
    0 <= p && p + 5 + b.len() <= ck.len() && ck.subrange(p, p + 5) == cf_marker_bytes()
        && ck.subrange(p + 5, p + 5 + b.len() as int) == b && (p + 5 + b.len() == ck.len() || ck[p
        + 5 + b.len()] == 59) && (forall|x: int|
        0 <= x < b.len() ==> #[trigger] b[x] != 59) && (forall|j: int|
        0 <= j < p ==> #[trigger] ck.subrange(j, j + 5) != cf_marker_bytes())
}

/// Reads the user identifier out of a request's cookie header: the
/// value of the first `__cf=` cookie, base64-decoded and parsed as an
/// identifier.  A header carrying an identifier the way `cookie_value`
/// writes it yields exactly that identifier; anything else may yield
/// nothing.
pub fn parse_local_user_id(cookie: &Vec<u8>) -> (r: Option<u128>)
    ensures
        forall|id: u128, p: int| #[trigger] cookie_shape_at(cookie@, id, p) ==> r == Some(id),
{
    let ghost gck = cookie@;
    let pat: Vec<u8> = vec![95u8, 95, 99, 102, 61];
    let found = crate::bytesfmt::find_sub(cookie, &pat, 0);
    if found.is_none() {
        proof {
            assert forall|id: u128, p: int| #[trigger] cookie_shape_at(gck, id, p) implies false by {
                let pl = pat@.len() as int;
                assert(pat@ =~= cf_marker_bytes());
                assert(gck.subrange(p, p + pl) == pat@);
            }
        }
        return None;
    }
    let at = found.unwrap();
    let cl = cookie.len();
    assert(at + pat@.len() <= cl);
    let start = at + pat.len();
    let semi: Vec<u8> = vec![59u8];
    let end: usize;
    let semi_found = crate::bytesfmt::find_sub(cookie, &semi, start);
    match semi_found {
        Some(e) => {
            end = e;
        },
        None => {
            end = cl;
        },
    }
    let seg = crate::bytesfmt::take_range(cookie, start, end);
    proof {
        assert forall|id: u128, p: int| #[trigger] cookie_shape_at(gck, id, p) implies seg@
            == b64_of(uuid_ascii(id)) by {
            let b = b64_of(uuid_ascii(id));
            let bl = b.len() as int;
            let pl = pat@.len() as int;
            assert(pat@ =~= cf_marker_bytes());
            assert(at == p) by {
                assert(gck.subrange(p, p + pl) == pat@);
                if at < p {
                    assert(gck.subrange(at as int, at as int + pl) == pat@);
                    assert(gck.subrange(at as int, at as int + 5) != cf_marker_bytes());
                }
                if at > p {
                    assert(gck.subrange(p, p + pl) != pat@);
                }
            }
            let sl = semi@.len() as int;
            assert(semi@ =~= seq![59u8]);
            if p + 5 + bl == gck.len() {
                // The value runs to the end of the header: nothing at or
                // past the value start is a semicolon, so none is found.
                assert(semi_found is None) by {
                    if semi_found is Some {
                        let e = semi_found.unwrap() as int;
                        assert(gck.subrange(e, e + sl) == semi@);
                        assert(gck.subrange(e, e + sl)[0] == gck[e]);
                        assert(gck.subrange(p + 5, p + 5 + bl)[e - (p + 5)] == gck[e]);
                        assert(false);
                    }
                }
                assert(end == gck.len());
            } else {
                assert(semi_found == Some((p + 5 + bl) as usize)) by {
                    assert(gck.subrange(p + 5 + bl, p + 5 + bl + sl) =~= seq![59u8]);
                    if semi_found is None {
                        assert(gck.subrange(p + 5 + bl, p + 5 + bl + sl) != semi@);
                        assert(false);
                    }
                    let e = semi_found.unwrap() as int;
                    if e < p + 5 + bl {
                        assert(gck.subrange(e, e + sl) == semi@);
                        assert(gck.subrange(e, e + sl)[0] == gck[e]);
                        assert(gck.subrange(p + 5, p + 5 + bl)[e - (p + 5)] == gck[e]);
                        assert(false);
                    }
                    if e > p + 5 + bl {
                        assert(gck.subrange(p + 5 + bl, p + 5 + bl + sl) != semi@);
                        assert(false);
                    }
                }
            }
            assert(seg@ =~= b);
        }
    }
    let decoded = b64_decode(&seg);
    if decoded.is_none() {
        proof {
            assert forall|id: u128, p: int| #[trigger] cookie_shape_at(gck, id, p) implies false by {
            }
        }
        return None;
    }
    let decoded = decoded.unwrap();
    parse_uuid_ascii(&decoded)
}

/// The user identifier a request carried in its session cookie, if any.
pub struct MaybeLocalUserId(pub Option<u128>);

impl MaybeLocalUserId {
    /// The identifier to provision a new user under: the one the request
    /// carried, or a freshly drawn one.
    pub fn make(self) -> (r: u128)
        ensures
            self.0 matches Some(id) ==> r == id,
    {
        match self.0 {
            Some(id) => id,
            None => fresh_uuid_id(),
        }
    }
}

/// The sanitised user-agent header of a request, if it carried one.
pub struct MaybeUserAgent(pub Option<String>);

impl MaybeUserAgent {
    /// Sanitises a raw user-agent header value; `None` stays `None`.
    pub fn from_header(raw: Option<&str>) -> (r: MaybeUserAgent)
        ensures
            raw is None ==> r.0 is None,
            raw matches Some(s) ==> r.0 matches Some(c) && c@ == cleaned_of(s@),
    {
        match raw {
            None => MaybeUserAgent(None),
            Some(s) => MaybeUserAgent(Some(html_clean(s))),
        }
    }
}

} // verus!
