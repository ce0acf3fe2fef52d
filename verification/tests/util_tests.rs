//! Identifier formatting, cookies, header extraction, code generation
//! and the argument parsers on concrete values.

use cbc::cipher::block_padding::Pkcs7;
use cbc::cipher::{BlockModeEncrypt, KeyIvInit};
use message_board::jsonout::{count_json, uuid_to_string};
use message_board::submit::process_submission;
use message_board::policy::Thresholds;
use message_board::user::{parse_local_user_id, MaybeUserAgent, User};
use message_board::util::{
    generate_code, lowercase_non_empty_string_parser, non_zero_i8_parser, HeaderError,
    MessageAndIvFromHeaders,
};

fn user(id: u128) -> User {
    User { id, code: String::from("c"), admin: false, banned: false }
}

#[test]
fn uuid_text_matches_canonical_form() {
    let id: u128 = 0x0123_4567_89ab_cdef_0123_4567_89ab_cdef;
    let ours = uuid_to_string(id);
    let reference = uuid::Uuid::from_u128(id).to_string();
    assert_eq!(ours, reference);
    assert_eq!(ours, "01234567-89ab-cdef-0123-456789abcdef");
}

#[test]
fn encryption_key_is_first_sixteen_bytes_of_text() {
    let u = user(0x0123_4567_89ab_cdef_0123_4567_89ab_cdef);
    assert_eq!(u.encryption_key(), b"01234567-89ab-cd".to_vec());
}

#[test]
fn encoded_id_is_base64_of_text() {
    let u = user(0x0123_4567_89ab_cdef_0123_4567_89ab_cdef);
    assert_eq!(u.encoded_id(), "MDEyMzQ1NjctODlhYi1jZGVmLTAxMjMtNDU2Nzg5YWJjZGVm");
}

#[test]
fn cookie_round_trip() {
    let u = user(0x0123_4567_89ab_cdef_0123_4567_89ab_cdef);
    let header = format!("theme=dark; {}", u.cookie_value());
    let parsed = parse_local_user_id(&header.into_bytes());
    assert_eq!(parsed, Some(u.id));
}

#[test]
fn cookie_at_end_of_header_round_trip() {
    let u = user(0x0123_4567_89ab_cdef_0123_4567_89ab_cdef);
    let header = format!("__cf={}", u.encoded_id());
    assert_eq!(parse_local_user_id(&header.into_bytes()), Some(u.id));
}

#[test]
fn cookie_without_marker_is_nothing() {
    assert_eq!(parse_local_user_id(&b"theme=dark".to_vec()), None);
    assert_eq!(parse_local_user_id(&b"__cf=!!!not-base64; x".to_vec()), None);
}

#[test]
fn count_payload_shape() {
    assert_eq!(count_json(0), "{\"count\":0}");
    assert_eq!(count_json(12), "{\"count\":12}");
}

#[test]
fn headers_round_trip() {
    let content: Vec<u8> = vec![7u8; 100];
    let iv: Vec<u8> = (0u8..16).collect();
    let content_b64 = b"BwcHBwcHBwcHBwcHBwcHBwcHBwcHBwcHBwcHBwcHBwcHBwcHBwcHBwcHBwcHBwcHBwcHBwcHBwcHBwcHBwcHBwcHBwcHBwcHBwcHBwcHBwcHBwcHBwcHBwcHBwcHBwcHBwcHBw==".to_vec();
    let ua = b"Mozilla/5.0 (Windows NT 10.0; Win64; x64; AAECAwQFBgcICQoLDA0ODw==) nothing else".to_vec();
    let m = match MessageAndIvFromHeaders::from_header_values(&content_b64, &ua) {
        Ok(m) => m,
        Err(_) => panic!("well-formed headers must parse"),
    };
    assert_eq!(m.0, content);
    assert_eq!(m.1, iv);
}

#[test]
fn headers_round_trip_with_marker_mid_header() {
    let iv: Vec<u8> = (0u8..16).collect();
    let ua =
        b"prefix junk Mozilla/5.0 (Windows NT 10.0; Win64; x64; AAECAwQFBgcICQoLDA0ODw==) tail"
            .to_vec();
    let m = match MessageAndIvFromHeaders::from_header_values(&b"AAAA".to_vec(), &ua) {
        Ok(m) => m,
        Err(_) => panic!("well-formed headers must parse"),
    };
    assert_eq!(m.1, iv);
}

#[test]
fn headers_errors() {
    let good_iv_ua =
        b"Mozilla/5.0 (Windows NT 10.0; Win64; x64; AAECAwQFBgcICQoLDA0ODw==)".to_vec();
    let r = MessageAndIvFromHeaders::from_header_values(&b"AAAA".to_vec(), &b"nothing".to_vec());
    assert!(matches!(r, Err(HeaderError::MissingIv)));
    let r = MessageAndIvFromHeaders::from_header_values(&b"!!bad".to_vec(), &good_iv_ua);
    assert!(matches!(r, Err(HeaderError::BadContentEncoding)));
    let long = base64::Engine::encode(&base64::engine::general_purpose::STANDARD, vec![1u8; 1025]);
    let r = MessageAndIvFromHeaders::from_header_values(&long.into_bytes(), &good_iv_ua);
    assert!(matches!(r, Err(HeaderError::ContentTooLong)));
    let bad_iv = b"Mozilla/5.0 (Windows NT 10.0; Win64; x64; !!!!)".to_vec();
    let r = MessageAndIvFromHeaders::from_header_values(&b"AAAA".to_vec(), &bad_iv);
    assert!(matches!(r, Err(HeaderError::BadIvEncoding)));
    let short_iv = b"Mozilla/5.0 (Windows NT 10.0; Win64; x64; AAECAw==)".to_vec();
    let r = MessageAndIvFromHeaders::from_header_values(&b"AAAA".to_vec(), &short_iv);
    assert!(matches!(r, Err(HeaderError::BadIvLength)));
}

#[test]
fn user_agent_is_sanitised() {
    let r = MaybeUserAgent::from_header(Some("agent <script>x</script> ok"));
    let cleaned = r.0.expect("present");
    assert!(!cleaned.contains("<script>"));
    assert!(cleaned.contains("agent"));
    assert!(MaybeUserAgent::from_header(None).0.is_none());
}

#[test]
fn generated_codes_use_two_words() {
    let words = vec![String::from("alpha"), String::from("beta"), String::from("gamma")];
    for _ in 0..20 {
        let code = generate_code(&words);
        let sep = code
            .chars()
            .find(|c| *c == '-' || *c == '_' || *c == '.')
            .expect("a separator");
        let mut parts = code.splitn(2, sep);
        let first = parts.next().unwrap();
        let second = parts.next().unwrap();
        assert!(words.iter().any(|w| w == first));
        assert!(words.iter().any(|w| w == second));
        assert_ne!(first, second);
    }
}

#[test]
fn lowercase_parser_cases() {
    assert_eq!(lowercase_non_empty_string_parser("  HeLLo "), Ok(String::from("hello")));
    assert_eq!(lowercase_non_empty_string_parser("MIXED case"), Ok(String::from("mixed case")));
    assert!(lowercase_non_empty_string_parser("   ").is_err());
    assert!(lowercase_non_empty_string_parser("").is_err());
}

#[test]
fn i8_parser_cases() {
    assert_eq!(non_zero_i8_parser("5"), Ok(5));
    assert_eq!(non_zero_i8_parser("+7"), Ok(7));
    assert_eq!(non_zero_i8_parser("127"), Ok(127));
    assert_eq!(non_zero_i8_parser("007"), Ok(7));
    assert!(non_zero_i8_parser("0").is_err());
    assert!(non_zero_i8_parser("-3").is_err());
    assert!(non_zero_i8_parser("128").is_err());
    assert!(non_zero_i8_parser("abc").is_err());
    assert!(non_zero_i8_parser("").is_err());
    assert!(non_zero_i8_parser("+").is_err());
}

#[test]
fn submission_pipeline_end_to_end() {
    let u = user(0x0123_4567_89ab_cdef_0123_4567_89ab_cdef);
    let key: [u8; 16] = u.encryption_key().as_slice().try_into().unwrap();
    let iv: [u8; 16] = [3u8; 16];
    let enc = cbc::Encryptor::<aes::Aes128>::new(&key.into(), &iv.into());
    let ct = enc.encrypt_padded_vec::<Pkcs7>("hello <b>there</b>".as_bytes());
    let mut body: Vec<u8> = vec![0u8; 8];
    body.extend_from_slice(&ct);
    body.extend_from_slice(&[0u8; 8]);
    let t = Thresholds::defaults();
    let p = process_submission(&u, &body, &iv.to_vec(), &vec![], 1_000_000, &t)
        .expect("a harmless submission is prepared");
    assert_eq!(p.content, "hello there");
    assert!(p.published);
    let garbage = vec![1u8; 40];
    assert!(process_submission(&u, &garbage, &iv.to_vec(), &vec![], 1_000_000, &t).is_none());
}
