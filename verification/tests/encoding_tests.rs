use phupload::encoding::{percent_encode, query_decode};

#[test]
fn unreserved_bytes_stay_unescaped() {
    let unreserved =
        b"ABCDEFGHIJKLMNOPQRSTUVWXYZabcdefghijklmnopqrstuvwxyz0123456789-._~".to_vec();
    assert_eq!(percent_encode(&unreserved), unreserved);
}

#[test]
fn every_other_byte_escapes_as_uppercase_hex() {
    for b in 0u16..=255 {
        let b = b as u8;
        let is_unreserved = b.is_ascii_alphanumeric() || b == b'-' || b == b'.' || b == b'_'
            || b == b'~';
        let out = percent_encode(&[b]);
        if is_unreserved {
            assert_eq!(out, vec![b]);
        } else {
            assert_eq!(out.len(), 3);
            assert_eq!(out[0], b'%');
            let expected = format!("%{:02X}", b);
            assert_eq!(out, expected.as_bytes().to_vec());
        }
    }
}

#[test]
fn encoding_known_phrases() {
    assert_eq!(
        percent_encode(b"Ladies + Gentlemen"),
        b"Ladies%20%2B%20Gentlemen".to_vec()
    );
    assert_eq!(
        percent_encode(b"An encoded string!"),
        b"An%20encoded%20string%21".to_vec()
    );
    assert_eq!(
        percent_encode(b"Dogs, Cats & Mice"),
        b"Dogs%2C%20Cats%20%26%20Mice".to_vec()
    );
    assert_eq!(percent_encode("\u{2603}".as_bytes()), b"%E2%98%83".to_vec());
}

#[test]
fn empty_input_encodes_empty() {
    assert_eq!(percent_encode(b""), Vec::<u8>::new());
}

#[test]
fn query_decoding_inverts_escapes_and_plus() {
    assert_eq!(query_decode(b"%41+b%2Fc"), b"A b/c".to_vec());
    assert_eq!(query_decode(b"abc123"), b"abc123".to_vec());
    assert_eq!(query_decode(b"%e2%98%83"), "\u{2603}".as_bytes().to_vec());
}

#[test]
fn query_decoding_passes_ill_formed_escapes_through() {
    assert_eq!(query_decode(b"%G1"), b"%G1".to_vec());
    assert_eq!(query_decode(b"%2"), b"%2".to_vec());
    assert_eq!(query_decode(b"100%"), b"100%".to_vec());
}
