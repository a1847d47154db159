use phupload::canonical::base_string;
use phupload::oauth::Oauth;

fn bp(pairs: &[(&str, &str)]) -> Vec<(Vec<u8>, Vec<u8>)> {
    pairs
        .iter()
        .map(|(k, v)| (k.as_bytes().to_vec(), v.as_bytes().to_vec()))
        .collect()
}

#[test]
fn base_string_small_example_by_hand() {
    let out = base_string(b"get", b"http://a/b", bp(&[("b", "2"), ("a", "1 ")]));
    assert_eq!(
        out,
        b"GET&http%3A%2F%2Fa%2Fb&a%3D1%2520%26b%3D2".to_vec()
    );
}

#[test]
fn base_string_ignores_parameter_listing_order() {
    let p1 = bp(&[
        ("oauth_nonce", "n"),
        ("oauth_timestamp", "1"),
        ("oauth_consumer_key", "k"),
        ("z", "last"),
        ("a", "first"),
    ]);
    let p2 = bp(&[
        ("a", "first"),
        ("z", "last"),
        ("oauth_consumer_key", "k"),
        ("oauth_timestamp", "1"),
        ("oauth_nonce", "n"),
    ]);
    let b1 = base_string(b"GET", b"https://example.net/x", p1);
    let b2 = base_string(b"GET", b"https://example.net/x", p2);
    assert_eq!(b1, b2);
}

#[test]
fn duplicate_keys_order_by_value() {
    let p1 = bp(&[("a", "2"), ("a", "1")]);
    let p2 = bp(&[("a", "1"), ("a", "2")]);
    let b1 = base_string(b"GET", b"http://h/", p1);
    let b2 = base_string(b"GET", b"http://h/", p2);
    assert_eq!(b1, b2);
    assert_eq!(b1, b"GET&http%3A%2F%2Fh%2F&a%3D1%26a%3D2".to_vec());
}

#[test]
fn hmac_sha1_base64_known_vector() {
    let sig = Oauth::sign(b"key", b"The quick brown fox jumps over the lazy dog");
    assert_eq!(sig, "3nybhbi3iqa8ino29wqQcBydtNk=");
}

#[test]
fn signing_key_joins_encoded_secrets() {
    assert_eq!(Oauth::key("kd94hf93k423kf44", None), b"kd94hf93k423kf44&".to_vec());
    assert_eq!(Oauth::key("a b", Some("c&d")), b"a%20b&c%26d".to_vec());
}

#[test]
fn fixed_vector_reproduces_known_signature() {
    // The token-request example of the OAuth 1.0a specification: client
    // secret kd94hf93k423kf44, empty token secret, fixed nonce and
    // timestamp.
    let key = Oauth::key("kd94hf93k423kf44", None);
    let params = bp(&[
        ("oauth_consumer_key", "dpf43f3p2l4k3l03"),
        ("oauth_signature_method", "HMAC-SHA1"),
        ("oauth_timestamp", "137131200"),
        ("oauth_nonce", "wIjqoS"),
        ("oauth_callback", "http://printer.example.com/ready"),
    ]);
    let sig = Oauth::create_signature(&key, "POST", "https://photos.example.net/initiate", params);
    assert_eq!(sig, "74KNZJeDHnMBp0EMJ9ZHt/XKycU=");
}

#[test]
fn nonce_is_eight_alphanumerics() {
    let n = Oauth::nonce();
    assert_eq!(n.len(), 8);
    assert!(n.chars().all(|c| c.is_ascii_alphanumeric()));
}

#[test]
fn timestamp_is_recent_decimal_seconds() {
    let t = Oauth::timestamp();
    let secs: u64 = t.parse().expect("timestamp must be decimal");
    assert!(secs > 1_600_000_000);
}
