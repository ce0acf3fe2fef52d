//! Structured text payloads: the live-count notification sent to admins
//! and the full-message record sent to admin recipients.  Both are built
//! character by character against an exact specification, including JSON
//! string escaping for the message content.

use vstd::prelude::*;
use vstd::string::{StrSliceExecFns, StringExecFns};
use crate::bridge::push_char;
use crate::bytesfmt::{ascii_chars, ascii_vec_to_string, dec_ascii, lemma_dec_ascii_roundtrip,
    u64_to_dec};
use crate::messages::FullMessage;
use crate::uuidfmt::{hex_digit, lemma_uuid_ascii_bytes, to_hex_digit, uuid_ascii, uuid_to_ascii};

verus! {

/// The characters of the decimal numeral of `n`.
pub open spec fn dec_chars(n: int) -> Seq<char>
    recommends
        n >= 0,
{
    ascii_chars(dec_ascii(n))
}

/// The characters of the canonical identifier form of `id`.
pub open spec fn uuid_chars(id: u128) -> Seq<char> {
    ascii_chars(uuid_ascii(id))
}

/// The decimal numeral of `n`, as a string.
pub fn u64_to_string(n: u64) -> (r: String)
    ensures
        r@ == dec_chars(n as int),
{
    let d = u64_to_dec(n);
    proof {
        lemma_dec_ascii_roundtrip(n as int);
    }
    ascii_vec_to_string(&d)
}

/// The canonical identifier form of `id`, as a string.
pub fn uuid_to_string(id: u128) -> (r: String)
    ensures
        r@ == uuid_chars(id),
{
    let a = uuid_to_ascii(id);
    proof {
        lemma_uuid_ascii_bytes(id);
    }
    ascii_vec_to_string(&a)
}

/// The live-count notification payload carrying the number `n`.
pub open spec fn count_json_chars(n: int) -> Seq<char>
    recommends
        n >= 0,
{
    "{\"count\":"@ + dec_chars(n) + "}"@
}

/// Builds the live-count notification payload.
pub fn count_json(n: u64) -> (r: String)
    ensures
        r@ == count_json_chars(n as int),
{
    let mut s = String::from_str("{\"count\":");
    let d = u64_to_string(n);
    s.append(d.as_str());
    s.append("}");
    s
}

/// The JSON escape of one character: quotes and backslashes are
/// backslash-escaped, control characters become `\u00XX`, everything
/// else stands for itself.
pub open spec fn esc_char(c: char) -> Seq<char> {
    if c == '"' {
        seq!['\\', '"']
    } else if c == '\\' {
        seq!['\\', '\\']
    } else if (c as u32) < 32 {
        seq![
            '\\',
            'u',
            '0',
            '0',
            hex_digit((c as u32 / 16) as u8) as char,
            hex_digit((c as u32 % 16) as u8) as char,
        ]
    } else {
        seq![c]
    }
}

/// The JSON escape of a string.
pub open spec fn json_escaped(s: Seq<char>) -> Seq<char>
    decreases s.len(),
{
    if s.len() == 0 {
        Seq::empty()
    } else {
        json_escaped(s.drop_last()) + esc_char(s.last())
    }
}

/// Escapes a string for inclusion in a JSON string literal.
pub fn escape_json(s: &str) -> (r: String)
    ensures
        r@ == json_escaped(s@),
{
    let n = s.unicode_len();
    let mut r = String::new();
    let mut i: usize = 0;
    while i < n
        invariant
            0 <= i <= n,
            n == s@.len(),
            r@ == json_escaped(s@.take(i as int)),
        decreases n - i,
    {
        let c = s.get_char(i);
        proof {
            assert(s@.take(i as int + 1).drop_last() =~= s@.take(i as int));
            assert(s@.take(i as int + 1).last() == s@[i as int]);
        }
        if c == '"' {
            push_char(&mut r, '\\');
            push_char(&mut r, '"');
        } else if c == '\\' {
            push_char(&mut r, '\\');
            push_char(&mut r, '\\');
        } else if (c as u32) < 32 {
            push_char(&mut r, '\\');
            push_char(&mut r, 'u');
            push_char(&mut r, '0');
            push_char(&mut r, '0');
            let hi = to_hex_digit(((c as u32) / 16) as u8);
            let lo = to_hex_digit(((c as u32) % 16) as u8);
            push_char(&mut r, hi as char);
            push_char(&mut r, lo as char);
        } else {
            push_char(&mut r, c);
        }
        proof {
            assert(r@ =~= json_escaped(s@.take(i as int + 1)));
        }
        i = i + 1;
    }
    proof {
        assert(s@.take(n as int) =~= s@);
    }
    r
}

/// The self-describing text record of a message, sent to admin
/// recipients of a new-message broadcast: every field, with the content
/// JSON-escaped, the score in thousandths and the timestamp in
/// milliseconds.
pub open spec fn message_json_chars(m: FullMessage) -> Seq<char>
    recommends
        m.created_at_ms >= 0,
{
    "{\"id\":\""@ + uuid_chars(m.id) + "\",\"content\":\""@ + json_escaped(m.content@)
        + "\",\"author\":\""@ + uuid_chars(m.author) + "\",\"published\":"@ + (if m.published {
        "true"@
    } else {
        "false"@
    }) + ",\"score_milli\":"@ + dec_chars(m.score_milli as int) + ",\"created_at_ms\":"@
        + dec_chars(m.created_at_ms as int) + "}"@
}

/// Builds the admin text record of a message.
pub fn message_json(m: &FullMessage) -> (r: String)
    requires
        m.created_at_ms >= 0,
    ensures
        r@ == message_json_chars(*m),
{
    let mut s = String::from_str("{\"id\":\"");
    let idc = uuid_to_string(m.id);
    s.append(idc.as_str());
    s.append("\",\"content\":\"");
    let esc = escape_json(m.content.as_str());
    s.append(esc.as_str());
    s.append("\",\"author\":\"");
    let auc = uuid_to_string(m.author);
    s.append(auc.as_str());
    s.append("\",\"published\":");
    if m.published {
        s.append("true");
    } else {
        s.append("false");
    }
    s.append(",\"score_milli\":");
    let sc = u64_to_string(m.score_milli as u64);
    s.append(sc.as_str());
    s.append(",\"created_at_ms\":");
    let cr = u64_to_string(m.created_at_ms as u64);
    s.append(cr.as_str());
    s.append("}");
    s
}

} // verus!
