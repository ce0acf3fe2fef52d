//! The inbound submission pipeline: from an encrypted request body to a
//! message ready to persist, or to nothing.
//!
//! The body arrives as eight noise bytes, the AES-128-CBC ciphertext of
//! the text, and eight more noise bytes; the iv travels separately.  The
//! pipeline decrypts with the submitter's derived key, strips HTML,
//! rejects empty and (for non-admins) over-long content, classifies the
//! text, scores it and asks the policy engine; a blocked submission
//! vanishes, anything else comes back with its score and visibility.

use vstd::prelude::*;
use vstd::utf8::{encode_utf8, encode_utf8_decode_utf8, encode_utf8_valid_utf8};
use crate::bridge::{aes_cbc_decrypt, aes_cbc_enc, analyze_content, cleaned_of, html_clean,
    string_from_utf8};
use crate::bytesfmt::take_range;
use crate::policy::{censor, lemma_block_only_for_duplicate_or_flood, spec_decide, CensorOutcome,
    HistoryEntry, Thresholds};
use crate::score::{score_content, spec_score, Classification};
use crate::user::{user_key, User};

verus! {

/// A submission the policy engine let through, ready to persist.
pub struct PreparedMessage {
    /// The sanitised text.
    pub content: String,
    /// The severity score, in thousandths.
    pub score_milli: u32,
    /// True for `Allow`, false for `Hide`.
    pub published: bool,
}

/// Whether the request body carries `text` encrypted under `key` and
/// `iv`: eight leading and eight trailing noise bytes around the
/// ciphertext of the text's UTF-8 encoding.
pub open spec fn body_carries(body: Seq<u8>, key: Seq<u8>, iv: Seq<u8>, text: Seq<char>) -> bool {
    let ct = aes_cbc_enc(key, iv, encode_utf8(text));
    body.len() == 16 + ct.len() && body.subrange(8, 8 + ct.len() as int) == ct
}

/// Decrypts and sanitises a submission body.  A body carrying some text
/// for this user comes back as exactly that text HTML-stripped — or as
/// nothing when the stripped text is empty, or over 320 bytes from a
/// non-admin.  A body carrying anything else may come back as anything
/// or nothing; whatever comes back is non-empty and length-checked.
pub fn prepare_content(user: &User, body: &Vec<u8>, iv: &Vec<u8>) -> (r: Option<String>)
    requires
        iv@.len() == 16,
    ensures
        r matches Some(c) ==> c@.len() > 0 && (user.admin || encode_utf8(c@).len() <= 320),
        forall|text: Seq<char>|
            #[trigger] body_carries(body@, user_key(user.id), iv@, text) ==> {
                let cl = cleaned_of(text);
                if cl.len() == 0 {
                    r is None
                } else if !user.admin && encode_utf8(cl).len() > 320 {
                    r is None
                } else {
                    r matches Some(c) && c@ == cl
                }
            },
{
    let ghost gb = body@;
    let ghost gkey = user_key(user.id);
    if body.len() < 16 {
        proof {
            assert forall|text: Seq<char>| #[trigger] body_carries(body@, user_key(user.id), iv@, text)
                implies false by {}
        }
        return None;
    }
    let inner = take_range(body, 8, body.len() - 8);
    let key = user.encryption_key();
    let pt = aes_cbc_decrypt(&key, iv, &inner);
    proof {
        assert forall|text: Seq<char>| #[trigger] body_carries(body@, user_key(user.id), iv@, text) implies inner@
            == aes_cbc_enc(gkey, iv@, encode_utf8(text)) by {
            let ct = aes_cbc_enc(gkey, iv@, encode_utf8(text));
            assert(inner@ =~= ct);
        }
    }
    if pt.is_none() {
        proof {
            assert forall|text: Seq<char>| #[trigger] body_carries(body@, user_key(user.id), iv@, text)
                implies false by {}
        }
        return None;
    }
    let pt = pt.unwrap();
    let ghost gpt = pt@;
    let text = string_from_utf8(pt);
    if text.is_none() {
        proof {
            assert forall|t0: Seq<char>| #[trigger] body_carries(body@, user_key(user.id), iv@, t0)
                implies false by {
                encode_utf8_valid_utf8(t0);
            }
        }
        return None;
    }
    let text = text.unwrap();
    let cleaned = html_clean(text.as_str());
    proof {
        assert forall|t0: Seq<char>| #[trigger] body_carries(body@, user_key(user.id), iv@, t0) implies cleaned@
            == cleaned_of(t0) by {
            assert(gpt == encode_utf8(t0));
            assert(encode_utf8(text@) == encode_utf8(t0));
            encode_utf8_decode_utf8(text@);
            encode_utf8_decode_utf8(t0);
            assert(text@ == t0);
        }
    }
    if cleaned.as_str().is_empty() {
        return None;
    }
    let bl = cleaned.as_str().as_bytes().len();
    proof {
        assert(bl == encode_utf8(cleaned@).len());
    }
    if !user.admin && bl > 320 {
        return None;
    }
    proof {
        assert(cleaned@.len() > 0);
        assert(user.admin || encode_utf8(cleaned@).len() <= 320);
        assert forall|t0: Seq<char>| #[trigger] body_carries(body@, user_key(user.id), iv@, t0) implies ({
            let cl = cleaned_of(t0);
            cl.len() > 0 && (user.admin || encode_utf8(cl).len() <= 320) && cl == cleaned@
        }) by {
            assert(cleaned@ == cleaned_of(t0));
        }
    }
    Some(cleaned)
}

/// Scores a submission and applies the policy: `Block` yields nothing;
/// `Allow` and `Hide` yield the message with its score, published for
/// `Allow` only.  The outcome is a pure function of the inputs.
pub fn judge(
    user: &User,
    content: String,
    classification: &Classification,
    history: &Vec<HistoryEntry>,
    now_ms: i64,
    t: &Thresholds,
) -> (r: Option<PreparedMessage>)
    requires
        forall|i: int|
            0 <= i < history@.len() ==> 0 <= #[trigger] history@[i].created_at_ms <= now_ms,
    ensures
        ({
            let d = spec_decide(
                *user,
                content@,
                spec_score(*classification) as u32,
                *classification,
                history@,
                now_ms as int,
                *t,
            );
            &&& (r is None <==> d == CensorOutcome::Block)
            &&& (r matches Some(p) ==> p.content@ == content@ && p.score_milli == spec_score(
                *classification,
            ) && (p.published <==> d == CensorOutcome::Allow))
        }),
{
    let score_milli = score_content(classification);
    let outcome = censor(user, &content, score_milli, classification, history, now_ms, t);
    match outcome {
        CensorOutcome::Allow => Some(
            PreparedMessage { content, score_milli, published: true },
        ),
        CensorOutcome::Hide => Some(PreparedMessage { content, score_milli, published: false }),
        CensorOutcome::Block => None,
    }
}

/// The whole inbound pipeline: decrypt, sanitise, classify, score and
/// judge.  Whatever classification the analyser returned, the result is
/// judged by the policy engine under it: nothing comes back blocked,
/// and what comes back carries its exact score and visibility.  For a
/// body carrying text for this user the outcome is owed: empty or
/// (for a non-admin) over-long stripped text yields nothing, and when
/// neither content-only blocking rule — an exact duplicate of the
/// newest prior message, or a flood inside the rate window — applies,
/// the prepared message comes back with exactly the stripped text,
/// whatever the classifier said.
pub fn process_submission(
    user: &User,
    body: &Vec<u8>,
    iv: &Vec<u8>,
    history: &Vec<HistoryEntry>,
    now_ms: i64,
    t: &Thresholds,
) -> (r: Option<PreparedMessage>)
    requires
        iv@.len() == 16,
        forall|i: int|
            0 <= i < history@.len() ==> 0 <= #[trigger] history@[i].created_at_ms <= now_ms,
    ensures
        r matches Some(p) ==> p.content@.len() > 0 && (user.admin || encode_utf8(p.content@).len()
            <= 320) && exists|c: Classification|
            {
                let d = #[trigger] spec_decide(
                    *user,
                    p.content@,
                    spec_score(c) as u32,
                    c,
                    history@,
                    now_ms as int,
                    *t,
                );
                d != CensorOutcome::Block && p.score_milli == spec_score(c) && (p.published <==> d
                    == CensorOutcome::Allow)
            },
        forall|text: Seq<char>|
            #[trigger] body_carries(body@, user_key(user.id), iv@, text) ==> {
                let cl = cleaned_of(text);
                &&& (cl.len() == 0 ==> r is None)
                &&& (!user.admin && encode_utf8(cl).len() > 320 ==> r is None)
                &&& ((cl.len() > 0 && (user.admin || encode_utf8(cl).len() <= 320) && !(
                    history@.len() > 0 && history@[0].content@ == cl) && !(history@.len() >= 3
                    && now_ms - history@[0].created_at_ms < t.rate_limit_ms)) ==> (r matches Some(
                    p,
                ) && p.content@ == cl))
            },
{
    match prepare_content(user, body, iv) {
        None => {
            proof {
                assert forall|text: Seq<char>|
                    #[trigger] body_carries(body@, user_key(user.id), iv@, text) implies ({
                    let cl = cleaned_of(text);
                    !(cl.len() > 0 && (user.admin || encode_utf8(cl).len() <= 320))
                }) by {}
            }
            None
        },
        Some(content) => {
            let ghost gcontent = content@;
            let classification = analyze_content(content.as_str());
            let r = judge(user, content, &classification, history, now_ms, t);
            proof {
                if r is Some {
                    let p = r.unwrap();
                    let d = spec_decide(
                        *user,
                        p.content@,
                        spec_score(classification) as u32,
                        classification,
                        history@,
                        now_ms as int,
                        *t,
                    );
                    assert(d != CensorOutcome::Block && p.score_milli == spec_score(classification)
                        && (p.published <==> d == CensorOutcome::Allow));
                }
                assert forall|text: Seq<char>|
                    #[trigger] body_carries(body@, user_key(user.id), iv@, text) implies ({
                    let cl = cleaned_of(text);
                    &&& cl == gcontent
                    &&& cl.len() > 0
                    &&& (!(history@.len() > 0 && history@[0].content@ == cl) && !(history@.len()
                        >= 3 && now_ms - history@[0].created_at_ms < t.rate_limit_ms) ==> (
                    r matches Some(p) && p.content@ == cl))
                }) by {
                    let cl = cleaned_of(text);
                    assert(cl == gcontent);
                    if !(history@.len() > 0 && history@[0].content@ == cl) && !(history@.len() >= 3
                        && now_ms - history@[0].created_at_ms < t.rate_limit_ms) {
                        lemma_block_only_for_duplicate_or_flood(
                            *user,
                            gcontent,
                            spec_score(classification) as u32,
                            classification,
                            history@,
                            now_ms as int,
                            *t,
                        );
                        assert(spec_decide(
                            *user,
                            gcontent,
                            spec_score(classification) as u32,
                            classification,
                            history@,
                            now_ms as int,
                            *t,
                        ) != CensorOutcome::Block);
                    }
                }
            }
            r
        },
    }
}

} // verus!
