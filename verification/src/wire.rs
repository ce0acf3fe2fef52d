//! The per-recipient wire encoding of message events.
//!
//! A normal recipient gets a binary frame: a 16-byte initialisation
//! vector in the clear, a one-byte type discriminator, eight bytes of
//! noise, one or more encrypted fields — each a 4-byte big-endian length
//! prefix followed by the AES-128-CBC ciphertext of the field's text —
//! and eight trailing noise bytes.  A full-message frame (tag 0) carries
//! id, content, timestamp and author; a retraction frame (tag 1) carries
//! only the id.  An admin recipient gets a plain structured text record
//! for new events and nothing for updates.  An unpublished message's
//! content is visible only to its author and admins: a normal recipient
//! gets nothing for its first broadcast and only the retraction frame
//! afterwards.  The noise and the per-user key are an obfuscation layer
//! against casual scraping, not a security boundary.
//!
//! `decode_frame` parses by the explicit framing (ignoring the noise)
//! and is proved to invert the encoder: a frame built from a message
//! decodes to exactly that message's fields.

use vstd::prelude::*;
use vstd::string::StrSliceExecFns;
use vstd::utf8::{encode_utf8, encode_utf8_valid_utf8, encode_utf8_decode_utf8};
use crate::bridge::{aes_cbc_enc, aes_cbc_encrypt, aes_cbc_decrypt, random_iv, random_noise,
    string_from_utf8};
use crate::bytesfmt::{append_bytes, be32_at, be32_bytes, dec_ascii, lemma_be32_roundtrip,
    lemma_dec_ascii_len20, take_range, u32_to_be_vec, u64_to_dec};
use crate::jsonout::{message_json, message_json_chars};
use crate::messages::FullMessage;
use crate::user::{user_key, User};
use crate::uuidfmt::{parse_uuid_ascii, uuid_ascii, uuid_to_ascii};
use crate::bytesfmt::parse_u64_dec;

verus! {

/// One encrypted field: a 4-byte big-endian length prefix followed by
/// the ciphertext of the payload.
pub open spec fn field_frame(key: Seq<u8>, iv: Seq<u8>, payload: Seq<u8>) -> Seq<u8> {
    let ct = aes_cbc_enc(key, iv, payload);
    be32_bytes(ct.len() as u32) + ct
}

/// Whether a field's ciphertext length fits its 32-bit prefix.
pub open spec fn field_fits(key: Seq<u8>, iv: Seq<u8>, payload: Seq<u8>) -> bool {
    aes_cbc_enc(key, iv, payload).len() < 0x1_0000_0000
}

/// The full-message frame: iv, tag 0, noise, the four fields (id text,
/// content bytes, timestamp numeral, author text), noise.
pub open spec fn spec_full_frame(
    key: Seq<u8>,
    iv: Seq<u8>,
    na: Seq<u8>,
    nb: Seq<u8>,
    m: FullMessage,
) -> Seq<u8> {
    iv + seq![0u8] + na + field_frame(key, iv, uuid_ascii(m.id)) + field_frame(
        key,
        iv,
        encode_utf8(m.content@),
    ) + field_frame(key, iv, dec_ascii(m.created_at_ms as int)) + field_frame(
        key,
        iv,
        uuid_ascii(m.author),
    ) + nb
}

/// The retraction frame: iv, tag 1, noise, the id field, noise.
pub open spec fn spec_delete_frame(
    key: Seq<u8>,
    iv: Seq<u8>,
    na: Seq<u8>,
    nb: Seq<u8>,
    id: u128,
) -> Seq<u8> {
    iv + seq![1u8] + na + field_frame(key, iv, uuid_ascii(id)) + nb
}

/// Whether every field of a full frame fits its length prefix.
pub open spec fn full_frame_fits(key: Seq<u8>, iv: Seq<u8>, m: FullMessage) -> bool {
    field_fits(key, iv, uuid_ascii(m.id)) && field_fits(key, iv, encode_utf8(m.content@))
        && field_fits(key, iv, dec_ascii(m.created_at_ms as int)) && field_fits(
        key,
        iv,
        uuid_ascii(m.author),
    )
}

/// Encrypts one field and appends its length-prefixed frame.
fn put_field(dst: &mut Vec<u8>, key: &Vec<u8>, iv: &Vec<u8>, payload: &Vec<u8>)
    requires
        key@.len() == 16,
        iv@.len() == 16,
        payload@.len() < 0xffff_ff00,
    ensures
        final(dst)@ == old(dst)@ + field_frame(key@, iv@, payload@),
        field_fits(key@, iv@, payload@),
{
    let ct = aes_cbc_encrypt(key, iv, payload);
    proof {
        vstd::arithmetic::div_mod::lemma_fundamental_div_mod(payload@.len() as int, 16);
        assert(ct@.len() < 0x1_0000_0000);
    }
    let lb = u32_to_be_vec(ct.len() as u32);
    append_bytes(dst, &lb);
    append_bytes(dst, &ct);
    proof {
        assert(dst@ =~= old(dst)@ + field_frame(key@, iv@, payload@));
    }
}

/// Builds the full-message frame for one recipient key.
pub fn encode_full(m: &FullMessage, key: &Vec<u8>, iv: &Vec<u8>, na: &Vec<u8>, nb: &Vec<u8>) -> (r:
    Vec<u8>)
    requires
        key@.len() == 16,
        iv@.len() == 16,
        na@.len() == 8,
        nb@.len() == 8,
        m.created_at_ms >= 0,
        encode_utf8(m.content@).len() < 0xffff_ff00,
    ensures
        r@ == spec_full_frame(key@, iv@, na@, nb@, *m),
        full_frame_fits(key@, iv@, *m),
{
    let mut out: Vec<u8> = Vec::new();
    append_bytes(&mut out, iv);
    out.push(0u8);
    append_bytes(&mut out, na);
    let idb = uuid_to_ascii(m.id);
    put_field(&mut out, key, iv, &idb);
    let cb = m.content.as_str().as_bytes_vec();
    put_field(&mut out, key, iv, &cb);
    let tb = u64_to_dec(m.created_at_ms as u64);
    proof {
        lemma_dec_ascii_len20(m.created_at_ms as int);
        assert(tb@ == dec_ascii(m.created_at_ms as int));
    }
    put_field(&mut out, key, iv, &tb);
    let ab = uuid_to_ascii(m.author);
    put_field(&mut out, key, iv, &ab);
    append_bytes(&mut out, nb);
    proof {
        assert(out@ =~= spec_full_frame(key@, iv@, na@, nb@, *m));
    }
    out
}

/// Builds the retraction frame for one recipient key.
pub fn encode_delete(id: u128, key: &Vec<u8>, iv: &Vec<u8>, na: &Vec<u8>, nb: &Vec<u8>) -> (r: Vec<
    u8,
>)
    requires
        key@.len() == 16,
        iv@.len() == 16,
        na@.len() == 8,
        nb@.len() == 8,
    ensures
        r@ == spec_delete_frame(key@, iv@, na@, nb@, id),
        field_fits(key@, iv@, uuid_ascii(id)),
{
    let mut out: Vec<u8> = Vec::new();
    append_bytes(&mut out, iv);
    out.push(1u8);
    append_bytes(&mut out, na);
    let idb = uuid_to_ascii(id);
    put_field(&mut out, key, iv, &idb);
    append_bytes(&mut out, nb);
    proof {
        assert(out@ =~= spec_delete_frame(key@, iv@, na@, nb@, id));
    }
    out
}

/// A retraction frame is told apart from a full-message frame by its
/// type discriminator, and it is strictly shorter.
pub proof fn lemma_retraction_distinct(
    key: Seq<u8>,
    iv: Seq<u8>,
    na: Seq<u8>,
    nb: Seq<u8>,
    m: FullMessage,
)
    requires
        iv.len() == 16,
        na.len() == 8,
        nb.len() == 8,
    ensures
        spec_delete_frame(key, iv, na, nb, m.id)[16] == 1,
        spec_full_frame(key, iv, na, nb, m)[16] == 0,
        spec_delete_frame(key, iv, na, nb, m.id).len() < spec_full_frame(key, iv, na, nb, m).len(),
{
    let del = spec_delete_frame(key, iv, na, nb, m.id);
    let full = spec_full_frame(key, iv, na, nb, m);
    let f_id = field_frame(key, iv, uuid_ascii(m.id));
    let f_ct = field_frame(key, iv, encode_utf8(m.content@));
    let f_ts = field_frame(key, iv, dec_ascii(m.created_at_ms as int));
    let f_au = field_frame(key, iv, uuid_ascii(m.author));
    assert(del.len() == 33 + f_id.len());
    assert(full.len() == 33 + f_id.len() + f_ct.len() + f_ts.len() + f_au.len());
    assert(f_ct.len() >= 4 && f_ts.len() >= 4 && f_au.len() >= 4);
}

/// Reads one length-prefixed encrypted field at `pos`, decrypting with
/// `key` and the frame's `iv`; fields never reach past `limit`.  If the
/// bytes at `pos` are the field frame of some payload that fits, the
/// read cannot fail and yields exactly that payload and the position
/// just past the field.
fn read_field(frame: &Vec<u8>, pos: usize, limit: usize, key: &Vec<u8>, iv: &Vec<u8>) -> (r:
    Option<(Vec<u8>, usize)>)
    requires
        key@.len() == 16,
        iv@.len() == 16,
        pos <= limit,
        limit <= frame@.len(),
    ensures
        r matches Some(p) ==> pos + 4 <= p.1 <= limit,
        forall|pl: Seq<u8>|
            {
                let ff = field_frame(key@, iv@, pl);
                (#[trigger] field_fits(key@, iv@, pl) && pos + ff.len() <= limit
                    && frame@.subrange(pos as int, pos + ff.len()) == ff) ==> (r matches Some(p)
                    && p.0@ == pl && p.1 == pos + ff.len())
            },
{
    let ghost gf = frame@;
    if limit - pos < 4 {
        proof {
            assert forall|pl: Seq<u8>|
                {
                    let ff = field_frame(key@, iv@, pl);
                    #[trigger] field_fits(key@, iv@, pl) && pos + ff.len() <= limit
                        && gf.subrange(pos as int, pos + ff.len()) == ff
                } implies false by {
                let ff = field_frame(key@, iv@, pl);
                assert(ff.len() >= 4);
            }
        }
        return None;
    }
    let n32 = be32_at(frame, pos);
    let n = n32 as usize;
    if n > limit - (pos + 4) {
        proof {
            assert forall|pl: Seq<u8>|
                {
                    let ff = field_frame(key@, iv@, pl);
                    #[trigger] field_fits(key@, iv@, pl) && pos + ff.len() <= limit
                        && gf.subrange(pos as int, pos + ff.len()) == ff
                } implies false by {
                let ff = field_frame(key@, iv@, pl);
                let ct = aes_cbc_enc(key@, iv@, pl);
                assert(ff == be32_bytes(ct.len() as u32) + ct);
                assert(gf.subrange(pos as int, pos as int + 4) =~= be32_bytes(ct.len() as u32));
                lemma_be32_roundtrip(ct.len() as u32);
                assert(n32 == ct.len() as u32);
                assert(ff.len() == 4 + ct.len());
            }
        }
        return None;
    }
    let ct = take_range(frame, pos + 4, pos + 4 + n);
    let pt = aes_cbc_decrypt(key, iv, &ct);
    match pt {
        Some(p) => {
            let r = Some((p, pos + 4 + n));
            proof {
                assert forall|pl: Seq<u8>|
                    {
                        let ff = field_frame(key@, iv@, pl);
                        #[trigger] field_fits(key@, iv@, pl) && pos + ff.len() <= limit
                            && gf.subrange(pos as int, pos + ff.len()) == ff
                    } implies (r matches Some(q) && q.0@ == pl && q.1 == pos + field_frame(
                    key@,
                    iv@,
                    pl,
                ).len()) by {
                    let ff = field_frame(key@, iv@, pl);
                    let ctx = aes_cbc_enc(key@, iv@, pl);
                    assert(ff == be32_bytes(ctx.len() as u32) + ctx);
                    assert(gf.subrange(pos as int, pos as int + 4) =~= be32_bytes(
                        ctx.len() as u32,
                    ));
                    lemma_be32_roundtrip(ctx.len() as u32);
                    assert(n == ctx.len());
                    let sub = gf.subrange(pos as int, pos + ff.len());
                    assert forall|k: int| 0 <= k < ctx.len() implies ct@[k] == ctx[k] by {
                        assert(ct@[k] == gf[pos + 4 + k]);
                        assert(gf[pos + 4 + k] == sub[4 + k]);
                        assert(sub[4 + k] == ff[4 + k]);
                        assert(ff[4 + k] == ctx[k]);
                    }
                    assert(ct@ =~= ctx);
                }
            }
            r
        },
        None => {
            proof {
                assert forall|pl: Seq<u8>|
                    {
                        let ff = field_frame(key@, iv@, pl);
                        #[trigger] field_fits(key@, iv@, pl) && pos + ff.len() <= limit
                            && gf.subrange(pos as int, pos + ff.len()) == ff
                    } implies false by {
                    let ff = field_frame(key@, iv@, pl);
                    let ctx = aes_cbc_enc(key@, iv@, pl);
                    assert(ff == be32_bytes(ctx.len() as u32) + ctx);
                    assert(gf.subrange(pos as int, pos as int + 4) =~= be32_bytes(
                        ctx.len() as u32,
                    ));
                    lemma_be32_roundtrip(ctx.len() as u32);
                    assert(n == ctx.len());
                    let sub = gf.subrange(pos as int, pos + ff.len());
                    assert forall|k: int| 0 <= k < ctx.len() implies ct@[k] == ctx[k] by {
                        assert(ct@[k] == gf[pos + 4 + k]);
                        assert(gf[pos + 4 + k] == sub[4 + k]);
                        assert(sub[4 + k] == ff[4 + k]);
                        assert(ff[4 + k] == ctx[k]);
                    }
                    assert(ct@ =~= ctx);
                }
            }
            None
        },
    }
}

/// A decoded full-message event.
pub struct DecodedMessage {
    /// The message identifier.
    pub id: u128,
    /// The message text.
    pub content: String,
    /// Creation time in milliseconds.
    pub created_at_ms: i64,
    /// The author's identifier.
    pub author: u128,
}

/// A decoded frame: a full message or a retraction of one.
pub enum DecodedEvent {
    Full(DecodedMessage),
    Delete(u128),
}

/// Whether `frame` is the full-message frame of `m` under `key` with
/// the given randomness, every field fitting its prefix.
pub open spec fn is_full_frame(
    frame: Seq<u8>,
    key: Seq<u8>,
    m: FullMessage,
    iv: Seq<u8>,
    na: Seq<u8>,
    nb: Seq<u8>,
) -> bool {
    iv.len() == 16 && na.len() == 8 && nb.len() == 8 && m.created_at_ms >= 0 && full_frame_fits(
        key,
        iv,
        m,
    ) && frame == spec_full_frame(key, iv, na, nb, m)
}

/// Whether `frame` is the retraction frame of `id` under `key` with the
/// given randomness.
pub open spec fn is_delete_frame(
    frame: Seq<u8>,
    key: Seq<u8>,
    id: u128,
    iv: Seq<u8>,
    na: Seq<u8>,
    nb: Seq<u8>,
) -> bool {
    iv.len() == 16 && na.len() == 8 && nb.len() == 8 && field_fits(key, iv, uuid_ascii(id))
        && frame == spec_delete_frame(key, iv, na, nb, id)
}

/// Unpacks a full frame into its pieces by position.
proof fn lemma_full_frame_layout(
    frame: Seq<u8>,
    key: Seq<u8>,
    m: FullMessage,
    iv: Seq<u8>,
    na: Seq<u8>,
    nb: Seq<u8>,
)
    requires
        is_full_frame(frame, key, m, iv, na, nb),
    ensures
        ({
            let l1 = field_frame(key, iv, uuid_ascii(m.id)).len() as int;
            let l2 = field_frame(key, iv, encode_utf8(m.content@)).len() as int;
            let l3 = field_frame(key, iv, dec_ascii(m.created_at_ms as int)).len() as int;
            let l4 = field_frame(key, iv, uuid_ascii(m.author)).len() as int;
            frame.len() == 33 + l1 + l2 + l3 + l4 && l1 >= 4 && l2 >= 4 && l3 >= 4 && l4 >= 4
                && frame[16] == 0 && frame.subrange(0, 16) == iv && frame.subrange(25, 25 + l1)
                == field_frame(key, iv, uuid_ascii(m.id)) && frame.subrange(25 + l1, 25 + l1 + l2)
                == field_frame(key, iv, encode_utf8(m.content@)) && frame.subrange(
                25 + l1 + l2,
                25 + l1 + l2 + l3,
            ) == field_frame(key, iv, dec_ascii(m.created_at_ms as int)) && frame.subrange(
                25 + l1 + l2 + l3,
                25 + l1 + l2 + l3 + l4,
            ) == field_frame(key, iv, uuid_ascii(m.author))
        }),
{
    let f1 = field_frame(key, iv, uuid_ascii(m.id));
    let f2 = field_frame(key, iv, encode_utf8(m.content@));
    let f3 = field_frame(key, iv, dec_ascii(m.created_at_ms as int));
    let f4 = field_frame(key, iv, uuid_ascii(m.author));
    let l1 = f1.len() as int;
    let l2 = f2.len() as int;
    let l3 = f3.len() as int;
    let l4 = f4.len() as int;
    assert(frame.subrange(0, 16) =~= iv);
    assert(frame.subrange(25, 25 + l1) =~= f1);
    assert(frame.subrange(25 + l1, 25 + l1 + l2) =~= f2);
    assert(frame.subrange(25 + l1 + l2, 25 + l1 + l2 + l3) =~= f3);
    assert(frame.subrange(25 + l1 + l2 + l3, 25 + l1 + l2 + l3 + l4) =~= f4);
}

/// Unpacks a retraction frame into its pieces by position.
proof fn lemma_delete_frame_layout(
    frame: Seq<u8>,
    key: Seq<u8>,
    id: u128,
    iv: Seq<u8>,
    na: Seq<u8>,
    nb: Seq<u8>,
)
    requires
        is_delete_frame(frame, key, id, iv, na, nb),
    ensures
        ({
            let l1 = field_frame(key, iv, uuid_ascii(id)).len() as int;
            frame.len() == 33 + l1 && l1 >= 4 && frame[16] == 1 && frame.subrange(0, 16) == iv
                && frame.subrange(25, 25 + l1) == field_frame(key, iv, uuid_ascii(id))
        }),
{
    let f1 = field_frame(key, iv, uuid_ascii(id));
    let l1 = f1.len() as int;
    assert(frame.subrange(0, 16) =~= iv);
    assert(frame.subrange(25, 25 + l1) =~= f1);
}

/// Parses one frame with the recipient key, by the explicit framing
/// (the noise blocks are skipped, never measured).  The round trip
/// holds: a frame built by the encoder from a message — under any iv
/// and noise, every field fitting its prefix — decodes to exactly that
/// message's id, content, timestamp and author, and a retraction frame
/// decodes to its id.  Any other byte shape may yield anything or
/// nothing.
#[verifier::rlimit(80)]
pub fn decode_frame(frame: &Vec<u8>, key: &Vec<u8>) -> (r: Option<DecodedEvent>)
    requires
        key@.len() == 16,
    ensures
        forall|m: FullMessage, iv: Seq<u8>, na: Seq<u8>, nb: Seq<u8>|
            #[trigger] is_full_frame(frame@, key@, m, iv, na, nb) ==> (r matches Some(e)
                && e matches DecodedEvent::Full(d) && d.id == m.id && d.content@ == m.content@
                && d.created_at_ms == m.created_at_ms && d.author == m.author),
        forall|id: u128, iv: Seq<u8>, na: Seq<u8>, nb: Seq<u8>|
            #[trigger] is_delete_frame(frame@, key@, id, iv, na, nb) ==> (r matches Some(e)
                && e matches DecodedEvent::Delete(x) && x == id),
{
    let ghost gf = frame@;
    let flen = frame.len();
    if flen < 33 {
        proof {
            assert forall|m: FullMessage, iv: Seq<u8>, na: Seq<u8>, nb: Seq<u8>|
                #[trigger] is_full_frame(gf, key@, m, iv, na, nb) implies false by {
                lemma_full_frame_layout(gf, key@, m, iv, na, nb);
            }
            assert forall|id: u128, iv: Seq<u8>, na: Seq<u8>, nb: Seq<u8>|
                #[trigger] is_delete_frame(gf, key@, id, iv, na, nb) implies false by {
                lemma_delete_frame_layout(gf, key@, id, iv, na, nb);
            }
        }
        return None;
    }
    let iv = take_range(frame, 0, 16);
    let tag = frame[16];
    let limit = flen - 8;
    if tag == 0 {
        let r1 = read_field(frame, 25, limit, key, &iv);
        if r1.is_none() {
            proof {
                assert forall|m: FullMessage, iv0: Seq<u8>, na: Seq<u8>, nb: Seq<u8>|
                    #[trigger] is_full_frame(gf, key@, m, iv0, na, nb) implies false by {
                    lemma_full_frame_layout(gf, key@, m, iv0, na, nb);
                    assert(iv@ == iv0);
                    assert(field_fits(key@, iv@, uuid_ascii(m.id)));
                }
                assert forall|id: u128, iv0: Seq<u8>, na: Seq<u8>, nb: Seq<u8>|
                    #[trigger] is_delete_frame(gf, key@, id, iv0, na, nb) implies false by {
                    lemma_delete_frame_layout(gf, key@, id, iv0, na, nb);
                }
            }
            return None;
        }
        let (p1, pos1) = r1.unwrap();
        let r2 = read_field(frame, pos1, limit, key, &iv);
        if r2.is_none() {
            proof {
                assert forall|m: FullMessage, iv0: Seq<u8>, na: Seq<u8>, nb: Seq<u8>|
                    #[trigger] is_full_frame(gf, key@, m, iv0, na, nb) implies false by {
                    lemma_full_frame_layout(gf, key@, m, iv0, na, nb);
                    assert(iv@ == iv0);
                    assert(field_fits(key@, iv@, uuid_ascii(m.id)));
                    assert(field_fits(key@, iv@, encode_utf8(m.content@)));
                }
                assert forall|id: u128, iv0: Seq<u8>, na: Seq<u8>, nb: Seq<u8>|
                    #[trigger] is_delete_frame(gf, key@, id, iv0, na, nb) implies false by {
                    lemma_delete_frame_layout(gf, key@, id, iv0, na, nb);
                }
            }
            return None;
        }
        let (p2, pos2) = r2.unwrap();
        let r3 = read_field(frame, pos2, limit, key, &iv);
        if r3.is_none() {
            proof {
                assert forall|m: FullMessage, iv0: Seq<u8>, na: Seq<u8>, nb: Seq<u8>|
                    #[trigger] is_full_frame(gf, key@, m, iv0, na, nb) implies false by {
                    lemma_full_frame_layout(gf, key@, m, iv0, na, nb);
                    assert(iv@ == iv0);
                    assert(field_fits(key@, iv@, uuid_ascii(m.id)));
                    assert(field_fits(key@, iv@, encode_utf8(m.content@)));
                    assert(field_fits(key@, iv@, dec_ascii(m.created_at_ms as int)));
                }
                assert forall|id: u128, iv0: Seq<u8>, na: Seq<u8>, nb: Seq<u8>|
                    #[trigger] is_delete_frame(gf, key@, id, iv0, na, nb) implies false by {
                    lemma_delete_frame_layout(gf, key@, id, iv0, na, nb);
                }
            }
            return None;
        }
        let (p3, pos3) = r3.unwrap();
        let r4 = read_field(frame, pos3, limit, key, &iv);
        if r4.is_none() {
            proof {
                assert forall|m: FullMessage, iv0: Seq<u8>, na: Seq<u8>, nb: Seq<u8>|
                    #[trigger] is_full_frame(gf, key@, m, iv0, na, nb) implies false by {
                    lemma_full_frame_layout(gf, key@, m, iv0, na, nb);
                    assert(iv@ == iv0);
                    assert(field_fits(key@, iv@, uuid_ascii(m.id)));
                    assert(field_fits(key@, iv@, encode_utf8(m.content@)));
                    assert(field_fits(key@, iv@, dec_ascii(m.created_at_ms as int)));
                    assert(field_fits(key@, iv@, uuid_ascii(m.author)));
                }
                assert forall|id: u128, iv0: Seq<u8>, na: Seq<u8>, nb: Seq<u8>|
                    #[trigger] is_delete_frame(gf, key@, id, iv0, na, nb) implies false by {
                    lemma_delete_frame_layout(gf, key@, id, iv0, na, nb);
                }
            }
            return None;
        }
        let (p4, pos4) = r4.unwrap();
        if pos4 != limit {
            proof {
                assert forall|m: FullMessage, iv0: Seq<u8>, na: Seq<u8>, nb: Seq<u8>|
                    #[trigger] is_full_frame(gf, key@, m, iv0, na, nb) implies false by {
                    lemma_full_frame_layout(gf, key@, m, iv0, na, nb);
                    assert(iv@ == iv0);
                    assert(field_fits(key@, iv@, uuid_ascii(m.id)));
                    assert(field_fits(key@, iv@, encode_utf8(m.content@)));
                    assert(field_fits(key@, iv@, dec_ascii(m.created_at_ms as int)));
                    assert(field_fits(key@, iv@, uuid_ascii(m.author)));
                }
                assert forall|id: u128, iv0: Seq<u8>, na: Seq<u8>, nb: Seq<u8>|
                    #[trigger] is_delete_frame(gf, key@, id, iv0, na, nb) implies false by {
                    lemma_delete_frame_layout(gf, key@, id, iv0, na, nb);
                }
            }
            return None;
        }
        let id_opt = parse_uuid_ascii(&p1);
        let created_opt = parse_u64_dec(&p3);
        let author_opt = parse_uuid_ascii(&p4);
        let ghost gp2 = p2@;
        let content_opt = string_from_utf8(p2);
        let ok = id_opt.is_some() && created_opt.is_some() && author_opt.is_some()
            && content_opt.is_some();
        if !ok {
            proof {
                assert forall|m: FullMessage, iv0: Seq<u8>, na: Seq<u8>, nb: Seq<u8>|
                    #[trigger] is_full_frame(gf, key@, m, iv0, na, nb) implies false by {
                    lemma_full_frame_layout(gf, key@, m, iv0, na, nb);
                    assert(iv@ == iv0);
                    assert(field_fits(key@, iv@, uuid_ascii(m.id)));
                    assert(field_fits(key@, iv@, encode_utf8(m.content@)));
                    assert(field_fits(key@, iv@, dec_ascii(m.created_at_ms as int)));
                    assert(field_fits(key@, iv@, uuid_ascii(m.author)));
                    assert(p1@ == uuid_ascii(m.id));
                    assert(p3@ == dec_ascii(m.created_at_ms as int));
                    assert((m.created_at_ms as u64) as int == m.created_at_ms as int);
                    assert(p3@ == dec_ascii((m.created_at_ms as u64) as int));
                    assert(p4@ == uuid_ascii(m.author));
                    encode_utf8_valid_utf8(m.content@);
                    assert(gp2 == encode_utf8(m.content@));
                }
                assert forall|id: u128, iv0: Seq<u8>, na: Seq<u8>, nb: Seq<u8>|
                    #[trigger] is_delete_frame(gf, key@, id, iv0, na, nb) implies false by {
                    lemma_delete_frame_layout(gf, key@, id, iv0, na, nb);
                }
            }
            return None;
        }
        let id = id_opt.unwrap();
        let created_u = created_opt.unwrap();
        let author = author_opt.unwrap();
        let content = content_opt.unwrap();
        if created_u > 0x7fff_ffff_ffff_ffffu64 {
            proof {
                assert forall|m: FullMessage, iv0: Seq<u8>, na: Seq<u8>, nb: Seq<u8>|
                    #[trigger] is_full_frame(gf, key@, m, iv0, na, nb) implies false by {
                    lemma_full_frame_layout(gf, key@, m, iv0, na, nb);
                    assert(iv@ == iv0);
                    assert(field_fits(key@, iv@, uuid_ascii(m.id)));
                    assert(field_fits(key@, iv@, encode_utf8(m.content@)));
                    assert(field_fits(key@, iv@, dec_ascii(m.created_at_ms as int)));
                    assert(field_fits(key@, iv@, uuid_ascii(m.author)));
                    assert((m.created_at_ms as u64) as int == m.created_at_ms as int);
                    assert(p3@ == dec_ascii((m.created_at_ms as u64) as int));
                }
                assert forall|id0: u128, iv0: Seq<u8>, na: Seq<u8>, nb: Seq<u8>|
                    #[trigger] is_delete_frame(gf, key@, id0, iv0, na, nb) implies false by {
                    lemma_delete_frame_layout(gf, key@, id0, iv0, na, nb);
                }
            }
            return None;
        }
        let d = DecodedMessage { id, content, created_at_ms: created_u as i64, author };
        let res = Some(DecodedEvent::Full(d));
        proof {
            assert forall|m: FullMessage, iv0: Seq<u8>, na: Seq<u8>, nb: Seq<u8>|
                #[trigger] is_full_frame(gf, key@, m, iv0, na, nb) implies (res matches Some(e)
                && e matches DecodedEvent::Full(dd) && dd.id == m.id && dd.content@ == m.content@
                && dd.created_at_ms == m.created_at_ms && dd.author == m.author) by {
                lemma_full_frame_layout(gf, key@, m, iv0, na, nb);
                assert(iv@ == iv0);
                assert(field_fits(key@, iv@, uuid_ascii(m.id)));
                assert(field_fits(key@, iv@, encode_utf8(m.content@)));
                assert(field_fits(key@, iv@, dec_ascii(m.created_at_ms as int)));
                assert(field_fits(key@, iv@, uuid_ascii(m.author)));
                assert(p1@ == uuid_ascii(m.id));
                assert(id == m.id);
                assert((m.created_at_ms as u64) as int == m.created_at_ms as int);
                assert(p3@ == dec_ascii((m.created_at_ms as u64) as int));
                assert(created_u == m.created_at_ms as u64);
                assert(created_u as i64 == m.created_at_ms);
                assert(p4@ == uuid_ascii(m.author));
                assert(author == m.author);
                encode_utf8_valid_utf8(m.content@);
                assert(gp2 == encode_utf8(m.content@));
                assert(encode_utf8(content@) == encode_utf8(m.content@));
                encode_utf8_decode_utf8(content@);
                encode_utf8_decode_utf8(m.content@);
                assert(content@ == m.content@);
            }
            assert forall|id0: u128, iv0: Seq<u8>, na: Seq<u8>, nb: Seq<u8>|
                #[trigger] is_delete_frame(gf, key@, id0, iv0, na, nb) implies false by {
                lemma_delete_frame_layout(gf, key@, id0, iv0, na, nb);
            }
        }
        res
    } else if tag == 1 {
        let r1 = read_field(frame, 25, limit, key, &iv);
        if r1.is_none() {
            proof {
                assert forall|id: u128, iv0: Seq<u8>, na: Seq<u8>, nb: Seq<u8>|
                    #[trigger] is_delete_frame(gf, key@, id, iv0, na, nb) implies false by {
                    lemma_delete_frame_layout(gf, key@, id, iv0, na, nb);
                    assert(iv@ == iv0);
                    assert(field_fits(key@, iv@, uuid_ascii(id)));
                }
                assert forall|m: FullMessage, iv0: Seq<u8>, na: Seq<u8>, nb: Seq<u8>|
                    #[trigger] is_full_frame(gf, key@, m, iv0, na, nb) implies false by {
                    lemma_full_frame_layout(gf, key@, m, iv0, na, nb);
                }
            }
            return None;
        }
        let (p1, pos1) = r1.unwrap();
        if pos1 != limit {
            proof {
                assert forall|id: u128, iv0: Seq<u8>, na: Seq<u8>, nb: Seq<u8>|
                    #[trigger] is_delete_frame(gf, key@, id, iv0, na, nb) implies false by {
                    lemma_delete_frame_layout(gf, key@, id, iv0, na, nb);
                    assert(iv@ == iv0);
                    assert(field_fits(key@, iv@, uuid_ascii(id)));
                }
                assert forall|m: FullMessage, iv0: Seq<u8>, na: Seq<u8>, nb: Seq<u8>|
                    #[trigger] is_full_frame(gf, key@, m, iv0, na, nb) implies false by {
                    lemma_full_frame_layout(gf, key@, m, iv0, na, nb);
                }
            }
            return None;
        }
        let id_opt = parse_uuid_ascii(&p1);
        if id_opt.is_none() {
            proof {
                assert forall|id: u128, iv0: Seq<u8>, na: Seq<u8>, nb: Seq<u8>|
                    #[trigger] is_delete_frame(gf, key@, id, iv0, na, nb) implies false by {
                    lemma_delete_frame_layout(gf, key@, id, iv0, na, nb);
                    assert(iv@ == iv0);
                    assert(field_fits(key@, iv@, uuid_ascii(id)));
                    assert(p1@ == uuid_ascii(id));
                }
                assert forall|m: FullMessage, iv0: Seq<u8>, na: Seq<u8>, nb: Seq<u8>|
                    #[trigger] is_full_frame(gf, key@, m, iv0, na, nb) implies false by {
                    lemma_full_frame_layout(gf, key@, m, iv0, na, nb);
                }
            }
            return None;
        }
        let id = id_opt.unwrap();
        let res = Some(DecodedEvent::Delete(id));
        proof {
            assert forall|id0: u128, iv0: Seq<u8>, na: Seq<u8>, nb: Seq<u8>|
                #[trigger] is_delete_frame(gf, key@, id0, iv0, na, nb) implies (res matches Some(e)
                && e matches DecodedEvent::Delete(x) && x == id0) by {
                lemma_delete_frame_layout(gf, key@, id0, iv0, na, nb);
                assert(iv@ == iv0);
                assert(field_fits(key@, iv@, uuid_ascii(id0)));
                assert(p1@ == uuid_ascii(id0));
                assert(id == id0);
            }
            assert forall|m: FullMessage, iv0: Seq<u8>, na: Seq<u8>, nb: Seq<u8>|
                #[trigger] is_full_frame(gf, key@, m, iv0, na, nb) implies false by {
                lemma_full_frame_layout(gf, key@, m, iv0, na, nb);
            }
        }
        res
    } else {
        proof {
            assert forall|m: FullMessage, iv0: Seq<u8>, na: Seq<u8>, nb: Seq<u8>|
                #[trigger] is_full_frame(gf, key@, m, iv0, na, nb) implies false by {
                lemma_full_frame_layout(gf, key@, m, iv0, na, nb);
            }
            assert forall|id: u128, iv0: Seq<u8>, na: Seq<u8>, nb: Seq<u8>|
                #[trigger] is_delete_frame(gf, key@, id, iv0, na, nb) implies false by {
                lemma_delete_frame_layout(gf, key@, id, iv0, na, nb);
            }
        }
        None
    }
}

/// One outbound socket payload.
pub enum WsPayload {
    /// A plain structured text record, for admin recipients.
    Text(String),
    /// An encrypted binary frame, for normal recipients.
    Binary(Vec<u8>),
}

/// Whether a message event must be suppressed for a recipient: an admin
/// polls for edits rather than receiving update deltas, and an
/// unpublished message's content is visible only to its author and
/// admins, so a normal recipient gets nothing for a freshly hidden
/// message (and later only its retraction).
pub open spec fn suppressed_for(recipient: User, m: FullMessage, is_update: bool) -> bool {
    (recipient.admin && is_update) || (!recipient.admin && !is_update && !m.published)
}

/// Whether `p` is a correct encoding of the event `(m, is_update)` for
/// this recipient, under some 16-byte iv and 8-byte noise blocks: the
/// plain text record for an admin, the retraction frame for an update
/// that is no longer published, the full frame only for a published
/// message.
pub open spec fn is_encoding_for(
    p: WsPayload,
    recipient: User,
    m: FullMessage,
    is_update: bool,
) -> bool {
    match p {
        WsPayload::Text(t) => recipient.admin && !is_update && t@ == message_json_chars(m),
        WsPayload::Binary(b) => !recipient.admin && if is_update && !m.published {
            exists|iv: Seq<u8>, na: Seq<u8>, nb: Seq<u8>|
                iv.len() == 16 && na.len() == 8 && nb.len() == 8 && b@ == spec_delete_frame(
                    user_key(recipient.id),
                    iv,
                    na,
                    nb,
                    m.id,
                )
        } else {
            m.published && exists|iv: Seq<u8>, na: Seq<u8>, nb: Seq<u8>|
                iv.len() == 16 && na.len() == 8 && nb.len() == 8 && b@ == spec_full_frame(
                    user_key(recipient.id),
                    iv,
                    na,
                    nb,
                    m,
                )
        },
    }
}

/// A non-privileged recipient never receives an unpublished message's
/// content: any correct encoding of an unpublished message's event for a
/// non-admin is the retraction frame, which carries only the message id.
pub proof fn lemma_hidden_content_never_encoded(
    p: WsPayload,
    recipient: User,
    m: FullMessage,
    is_update: bool,
)
    requires
        !recipient.admin,
        !m.published,
        is_encoding_for(p, recipient, m, is_update),
    ensures
        p matches WsPayload::Binary(b) && is_update && exists|iv: Seq<u8>, na: Seq<u8>, nb: Seq<
            u8,
        >|
            iv.len() == 16 && na.len() == 8 && nb.len() == 8 && b@ == spec_delete_frame(
                user_key(recipient.id),
                iv,
                na,
                nb,
                m.id,
            ),
{
}

impl FullMessage {
    /// The recipient-specific encoding of this message event, with the
    /// randomness (iv and the two noise blocks) passed in: an admin gets
    /// the text record for a new event and nothing for an update; a
    /// normal recipient gets the retraction frame when an update is no
    /// longer published, the full frame when the message is published —
    /// encrypted under the key derived from the recipient's identifier —
    /// and nothing for a hidden message's first broadcast, which only
    /// its author and admins may see.
    pub fn encode_message_with(
        &self,
        recipient: &User,
        is_update: bool,
        iv: &Vec<u8>,
        na: &Vec<u8>,
        nb: &Vec<u8>,
    ) -> (r: Option<WsPayload>)
        requires
            iv@.len() == 16,
            na@.len() == 8,
            nb@.len() == 8,
            self.created_at_ms >= 0,
            encode_utf8(self.content@).len() < 0xffff_ff00,
        ensures
            r is None <==> suppressed_for(*recipient, *self, is_update),
            recipient.admin && !is_update ==> (r matches Some(p) && p matches WsPayload::Text(t)
                && t@ == message_json_chars(*self)),
            !recipient.admin && is_update && !self.published ==> (r matches Some(p)
                && p matches WsPayload::Binary(b) && b@ == spec_delete_frame(
                user_key(recipient.id),
                iv@,
                na@,
                nb@,
                self.id,
            )),
            !recipient.admin && self.published ==> (r matches Some(p)
                && p matches WsPayload::Binary(b) && b@ == spec_full_frame(
                user_key(recipient.id),
                iv@,
                na@,
                nb@,
                *self,
            ) && full_frame_fits(user_key(recipient.id), iv@, *self)),
            r matches Some(p) ==> is_encoding_for(p, *recipient, *self, is_update),
    {
        let r = if recipient.admin {
            if is_update {
                None
            } else {
                Some(WsPayload::Text(message_json(self)))
            }
        } else {
            let key = recipient.encryption_key();
            if is_update && !self.published {
                Some(WsPayload::Binary(encode_delete(self.id, &key, iv, na, nb)))
            } else if self.published {
                Some(WsPayload::Binary(encode_full(self, &key, iv, na, nb)))
            } else {
                None
            }
        };
        proof {
            if r is Some {
                let p = r.unwrap();
                if !recipient.admin && is_update && !self.published {
                    assert(p matches WsPayload::Binary(b) && b@ == spec_delete_frame(
                        user_key(recipient.id),
                        iv@,
                        na@,
                        nb@,
                        self.id,
                    ));
                }
                if !recipient.admin && self.published {
                    assert(p matches WsPayload::Binary(b) && b@ == spec_full_frame(
                        user_key(recipient.id),
                        iv@,
                        na@,
                        nb@,
                        *self,
                    ));
                }
                assert(is_encoding_for(p, *recipient, *self, is_update));
            }
        }
        r
    }

    /// The recipient-specific encoding of this message event, drawing a
    /// fresh initialisation vector and noise.  Whatever randomness came
    /// back, the payload is a correct encoding of the event for this
    /// recipient, and nothing at all is produced exactly for the
    /// suppressed cases.
    pub fn encode_message_for(&self, recipient: &User, is_update: bool) -> (r: Option<WsPayload>)
        requires
            self.created_at_ms >= 0,
            encode_utf8(self.content@).len() < 0xffff_ff00,
        ensures
            r is None <==> suppressed_for(*recipient, *self, is_update),
            r matches Some(p) ==> is_encoding_for(p, *recipient, *self, is_update),
    {
        let iv = random_iv();
        let na = random_noise();
        let nb = random_noise();
        self.encode_message_with(recipient, is_update, &iv, &na, &nb)
    }
}

} // verus!
