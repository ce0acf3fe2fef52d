//! The wire encoder and decoder on concrete values: framing, the
//! retraction shape, the admin text record, and the full round trip.

use cbc::cipher::block_padding::Pkcs7;
use cbc::cipher::{BlockModeEncrypt, KeyIvInit};
use message_board::messages::FullMessage;
use message_board::user::User;
use message_board::wire::{decode_frame, encode_delete, encode_full, DecodedEvent, WsPayload};

fn msg(id: u128, content: &str, author: u128, published: bool) -> FullMessage {
    FullMessage {
        id,
        content: String::from(content),
        author,
        published,
        score_milli: 40,
        created_at_ms: 1_700_000_000_123,
    }
}

fn test_key() -> Vec<u8> {
    let user = User {
        id: 0x0123_4567_89ab_cdef_0123_4567_89ab_cdef,
        code: String::from("c"),
        admin: false,
        banned: false,
    };
    user.encryption_key()
}

fn fixed_iv() -> Vec<u8> {
    (0u8..16).collect()
}

fn noise() -> Vec<u8> {
    vec![9u8; 8]
}

#[test]
fn full_frame_round_trip() {
    let m = msg(77, "hello wire", 88, true);
    let key = test_key();
    let frame = encode_full(&m, &key, &fixed_iv(), &noise(), &noise());
    match decode_frame(&frame, &key) {
        Some(DecodedEvent::Full(d)) => {
            assert_eq!(d.id, 77);
            assert_eq!(d.content, "hello wire");
            assert_eq!(d.created_at_ms, 1_700_000_000_123);
            assert_eq!(d.author, 88);
        },
        _ => panic!("expected a full-message event"),
    }
}

#[test]
fn delete_frame_round_trip() {
    let key = test_key();
    let frame = encode_delete(4242, &key, &fixed_iv(), &noise(), &noise());
    match decode_frame(&frame, &key) {
        Some(DecodedEvent::Delete(id)) => assert_eq!(id, 4242),
        _ => panic!("expected a retraction event"),
    }
}

#[test]
fn retraction_discriminator_and_length() {
    let m = msg(5, "some content here", 6, false);
    let key = test_key();
    let full = encode_full(&m, &key, &fixed_iv(), &noise(), &noise());
    let del = encode_delete(m.id, &key, &fixed_iv(), &noise(), &noise());
    assert_eq!(full[16], 0);
    assert_eq!(del[16], 1);
    assert!(del.len() < full.len());
}

#[test]
fn frame_lengths_show_padding() {
    // The identifier text is 36 bytes, so its ciphertext is three full
    // blocks: 48 bytes.  A retraction frame is 16 + 1 + 8 + (4 + 48)
    // + 8 = 85 bytes; identity in place of encryption would give 73.
    let key = test_key();
    let del = encode_delete(1, &key, &fixed_iv(), &noise(), &noise());
    assert_eq!(del.len(), 85);
    // "hello" encrypts to one block, the timestamp numeral to one.
    let m = FullMessage {
        id: 1,
        content: String::from("hello"),
        author: 2,
        published: true,
        score_milli: 0,
        created_at_ms: 5,
    };
    let full = encode_full(&m, &key, &fixed_iv(), &noise(), &noise());
    assert_eq!(full.len(), 33 + 52 + 20 + 20 + 52);
}

#[test]
fn wrong_key_does_not_round_trip() {
    let m = msg(77, "hello wire", 88, true);
    let key = test_key();
    let frame = encode_full(&m, &key, &fixed_iv(), &noise(), &noise());
    let other: Vec<u8> = vec![7u8; 16];
    let decoded = decode_frame(&frame, &other);
    let intact = match decoded {
        Some(DecodedEvent::Full(d)) => d.id == m.id && d.content == m.content,
        _ => false,
    };
    assert!(!intact);
}

#[test]
fn admin_gets_text_record() {
    let m = FullMessage {
        id: 1,
        content: String::from("hi"),
        author: 2,
        published: true,
        score_milli: 0,
        created_at_ms: 5,
    };
    let admin = User { id: 9, code: String::from("a"), admin: true, banned: false };
    match m.encode_message_for(&admin, false) {
        Some(WsPayload::Text(t)) => {
            assert_eq!(
                t,
                "{\"id\":\"00000000-0000-0000-0000-000000000001\",\"content\":\"hi\",\
                 \"author\":\"00000000-0000-0000-0000-000000000002\",\"published\":true,\
                 \"score_milli\":0,\"created_at_ms\":5}"
            );
        },
        _ => panic!("expected a text payload"),
    }
}

#[test]
fn admin_update_suppressed() {
    let m = msg(1, "hi", 2, true);
    let admin = User { id: 9, code: String::from("a"), admin: true, banned: false };
    assert!(m.encode_message_for(&admin, true).is_none());
}

#[test]
fn normal_recipient_gets_binary() {
    let m = msg(1, "hi", 2, true);
    let normal = User { id: 9, code: String::from("n"), admin: false, banned: false };
    match m.encode_message_for(&normal, false) {
        Some(WsPayload::Binary(b)) => {
            assert_eq!(b[16], 0);
            let key = normal.encryption_key();
            match decode_frame(&b, &key) {
                Some(DecodedEvent::Full(d)) => assert_eq!(d.content, "hi"),
                _ => panic!("binary frame should decode with the recipient key"),
            }
        },
        _ => panic!("expected a binary payload"),
    }
}

#[test]
fn retraction_update_for_normal_recipient() {
    let m = msg(31, "gone", 2, false);
    let normal = User { id: 9, code: String::from("n"), admin: false, banned: false };
    match m.encode_message_for(&normal, true) {
        Some(WsPayload::Binary(b)) => {
            assert_eq!(b[16], 1);
            let key = normal.encryption_key();
            match decode_frame(&b, &key) {
                Some(DecodedEvent::Delete(id)) => assert_eq!(id, 31),
                _ => panic!("retraction frame should decode with the recipient key"),
            }
        },
        _ => panic!("expected a binary payload"),
    }
}

#[test]
fn hidden_new_message_suppressed_for_normal_recipient() {
    // A hidden message's content is visible only to its author and
    // admins: its first broadcast encodes to nothing for a normal
    // recipient, while an admin still gets the text record.
    let m = msg(7, "for moderator eyes", 2, false);
    let normal = User { id: 9, code: String::from("n"), admin: false, banned: false };
    assert!(m.encode_message_for(&normal, false).is_none());
    let admin = User { id: 9, code: String::from("a"), admin: true, banned: false };
    assert!(matches!(m.encode_message_for(&admin, false), Some(WsPayload::Text(_))));
}

#[test]
fn republished_update_sends_full_record() {
    let m = msg(31, "back", 2, true);
    let normal = User { id: 9, code: String::from("n"), admin: false, banned: false };
    match m.encode_message_for(&normal, true) {
        Some(WsPayload::Binary(b)) => assert_eq!(b[16], 0),
        _ => panic!("expected a binary payload"),
    }
}

#[test]
fn ciphertext_matches_reference_implementation() {
    // The frame's first field must be the AES-128-CBC/PKCS#7
    // ciphertext of the identifier text under the recipient key and
    // the frame's iv, byte for byte.
    let key = test_key();
    let iv = fixed_iv();
    let del = encode_delete(0x4242, &key, &iv, &noise(), &noise());
    let key_arr: [u8; 16] = key.as_slice().try_into().unwrap();
    let iv_arr: [u8; 16] = iv.as_slice().try_into().unwrap();
    let enc = cbc::Encryptor::<aes::Aes128>::new(&key_arr.into(), &iv_arr.into());
    let expected = enc.encrypt_padded_vec::<Pkcs7>("00000000-0000-0000-0000-000000004242".as_bytes());
    assert_eq!(&del[29..29 + 48], expected.as_slice());
}

#[test]
fn admin_record_escapes_content() {
    let m = FullMessage {
        id: 3,
        content: String::from("say \"hi\" \\ back\nnow"),
        author: 4,
        published: false,
        score_milli: 210,
        created_at_ms: 9,
    };
    let admin = User { id: 9, code: String::from("a"), admin: true, banned: false };
    match m.encode_message_for(&admin, false) {
        Some(WsPayload::Text(t)) => {
            assert!(t.contains("say \\\"hi\\\" \\\\ back\\u000anow"));
            assert!(t.contains("\"published\":false"));
            assert!(t.contains("\"score_milli\":210"));
            let parsed: serde_json::Value = serde_json::from_str(&t).expect("valid JSON");
            assert_eq!(parsed["content"], "say \"hi\" \\ back\nnow");
        },
        _ => panic!("expected a text payload"),
    }
}
