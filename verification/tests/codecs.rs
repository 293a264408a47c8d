use tessera_bridge::assist::{id_text, library_key, parse_ids};
use tessera_bridge::base64::{base64_decode, base64_encode};
use tessera_bridge::ids::parse_id;

#[test]
fn base64_round_trips() {
    for n in 0..40 {
        let v: Vec<u8> = (0..n).map(|i| (i * 37 % 256) as u8).collect();
        assert_eq!(base64_decode(&base64_encode(&v)).unwrap(), v);
    }
    assert_eq!(base64_encode(b"Man"), "TWFu");
    assert_eq!(base64_encode(b"Ma"), "TWE=");
}

#[test]
fn base64_encodes_known_values() {
    assert_eq!(base64_encode(b""), "");
    assert_eq!(base64_encode(b"M"), "TQ==");
    assert_eq!(base64_encode(&[0xff, 0xfe, 0xfd]), "//79");
    assert_eq!(base64_encode(b"hello world"), "aGVsbG8gd29ybGQ=");
}

#[test]
fn base64_decodes_and_refuses() {
    assert_eq!(base64_decode("TWFu").unwrap(), b"Man".to_vec());
    assert_eq!(base64_decode("TWE=").unwrap(), b"Ma".to_vec());
    assert_eq!(base64_decode("TQ==").unwrap(), b"M".to_vec());
    assert_eq!(base64_decode("").unwrap(), Vec::<u8>::new());
    // Padding ends the text; a partial group yields its whole bytes.
    assert_eq!(base64_decode("T").unwrap(), Vec::<u8>::new());
    assert_eq!(base64_decode("TWE").unwrap(), b"Ma".to_vec());
    assert_eq!(base64_decode("TQ==TWFu").unwrap(), b"M".to_vec());
    assert!(base64_decode("TW*u").is_none());
}

#[test]
fn image_ids_parse_and_print() {
    let text = "0123456789abcdefABCDEF0123456789";
    let id = parse_id(text).unwrap();
    assert_eq!(id, 0x0123456789abcdefabcdef0123456789u128);
    assert_eq!(id_text(id), text.to_lowercase());
    assert_eq!(id_text(1), "00000000000000000000000000000001");
    assert_eq!(parse_id(&id_text(u128::MAX)).unwrap(), u128::MAX);
}

#[test]
fn malformed_image_ids_are_refused() {
    for bad in ["", "abc", "0123456789abcdef0123456789abcdeg", "0123456789abcdef0123456789abcdef0"] {
        let e = parse_id(bad).unwrap_err();
        assert_eq!(e.message_text(), "image_id must contain 32 hexadecimal characters");
    }
}

#[test]
fn several_ids_parse_or_fail_together() {
    let ok = parse_ids(&vec![id_text(3), id_text(4)]).unwrap();
    assert_eq!(ok, vec![3, 4]);
    let e = parse_ids(&vec![id_text(3), "nope".to_string()]).unwrap_err();
    assert_eq!(e.message_text(), "image_id must contain 32 hexadecimal characters");
}

#[test]
fn library_keys_are_bounded_and_stable() {
    assert_eq!(library_key(None), "query");
    let a = library_key(Some("/Users/me/Pictures"));
    let digest = blake3::hash(b"/Users/me/Pictures").to_hex().to_string();
    assert_eq!(a, format!("folder-{}", &digest[..32]));
    assert_eq!(a.len(), 39);
    assert_eq!(a, library_key(Some("/Users/me/Pictures")));
    assert_ne!(a, library_key(Some("/Users/me/Pictures2")));
}

#[test]
fn encodings_are_padded_to_whole_groups() {
    for n in 0..10usize {
        let data: Vec<u8> = (0..n as u8).map(|b| b.wrapping_mul(37)).collect();
        let t = base64_encode(&data);
        assert_eq!(t.len(), 4 * ((n + 2) / 3));
        let pads = (3 - n % 3) % 3;
        assert!(t.ends_with(&"=".repeat(pads)));
        assert!(t[..t.len() - pads].bytes().all(|b| b.is_ascii_alphanumeric() || b == b'+' || b == b'/'));
    }
}

#[test]
fn decoding_fails_only_on_a_stray_byte_before_the_padding() {
    assert!(base64_decode("TW!u").is_none());
    assert_eq!(base64_decode("TWE=!!"), Some(b"Ma".to_vec()));
    assert_eq!(base64_decode("TWFu"), Some(b"Man".to_vec()));
}
