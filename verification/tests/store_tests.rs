use phupload::flow::Credentials;
use phupload::store::CredentialStore;


fn creds() -> Credentials {
    Credentials {
        client_key: "ck".to_string(),
        client_secret: "cs".to_string(),
        token: None,
        token_secret: None,
        verifier: None,
        access_token: Some("AT".to_string()),
        access_token_secret: Some("AS".to_string()),
    }
}

#[test]
fn saving_twice_is_byte_identical() {
    let doc = b"[cloudinary]\ncloud_name = \"x\"\n".to_vec();
    let once = CredentialStore::save(&doc, &creds());
    let twice = CredentialStore::save(&once, &creds());
    assert_eq!(once, twice);
}

#[test]
fn saving_into_empty_document_renders_the_section() {
    let out = CredentialStore::save(b"", &creds());
    let expected = "\n[flickr]\noauth_client_key = \"ck\"\noauth_client_secret = \"cs\"\noauth_access_token = \"AT\"\noauth_access_token_secret = \"AS\"";
    assert_eq!(String::from_utf8(out).unwrap(), expected);
}

#[test]
fn unrelated_sections_keep_their_bytes() {
    let doc = b"[cloudinary]\ncloud_name = \"x\"\napi_key = \"k\"\n\n[flickr]\noauth_client_key = \"old\"\n\n[script]\npath = \"/bin/p\"".to_vec();
    let out = CredentialStore::save(&doc, &creds());
    let text = String::from_utf8(out).unwrap();
    let before = "[cloudinary]\ncloud_name = \"x\"\napi_key = \"k\"\n\n";
    let after = "[script]\npath = \"/bin/p\"";
    assert!(text.starts_with(before), "leading section changed: {text}");
    assert!(text.ends_with(after), "trailing section changed: {text}");
    assert!(text.contains("oauth_client_key = \"ck\""));
    assert!(!text.contains("old"));
}

#[test]
fn replacing_at_end_of_document_works() {
    let doc = b"[a]\nx = \"1\"\n[flickr]\noauth_client_key = \"old\"".to_vec();
    let out = CredentialStore::save(&doc, &creds());
    let text = String::from_utf8(out).unwrap();
    assert!(text.starts_with("[a]\nx = \"1\"\n[flickr]\n"));
    assert!(!text.contains("old"));
    let again = CredentialStore::save(text.as_bytes(), &creds());
    assert_eq!(text.as_bytes(), again.as_slice());
}

#[test]
fn values_are_escaped() {
    let mut c = creds();
    c.access_token = Some("a\"b\\c\nd".to_string());
    c.access_token_secret = Some("s".to_string());
    let out = CredentialStore::save(b"", &c);
    let text = String::from_utf8(out).unwrap();
    assert!(text.contains("oauth_access_token = \"a\\\"b\\\\c\\u000Ad\""));
}

#[test]
fn absent_fields_render_no_lines() {
    let mut c = creds();
    c.access_token = None;
    c.access_token_secret = None;
    let out = CredentialStore::save(b"", &c);
    let text = String::from_utf8(out).unwrap();
    assert!(!text.contains("oauth_access_token"));
    assert!(!text.contains("oauth_token"));
    assert!(text.contains("oauth_client_key = \"ck\""));
}

#[test]
fn load_reads_back_what_save_wrote() {
    let doc = b"[cloudinary]\ncloud_name = \"x\"\n".to_vec();
    let mut c = creds();
    c.token = Some("T".to_string());
    c.verifier = Some("a\"b\\c\nd".to_string());
    let saved = CredentialStore::save(&doc, &c);
    let loaded = CredentialStore::load(&saved).expect("the section must load");
    assert_eq!(loaded.client_key, "ck");
    assert_eq!(loaded.client_secret, "cs");
    assert_eq!(loaded.token.as_deref(), Some("T"));
    assert_eq!(loaded.token_secret, None);
    assert_eq!(loaded.verifier.as_deref(), Some("a\"b\\c\nd"));
    assert_eq!(loaded.access_token.as_deref(), Some("AT"));
    assert_eq!(loaded.access_token_secret.as_deref(), Some("AS"));
}

#[test]
fn load_without_the_section_or_client_pair_is_none() {
    assert!(CredentialStore::load(b"").is_none());
    assert!(CredentialStore::load(b"[cloudinary]\ncloud_name = \"x\"\n").is_none());
    assert!(CredentialStore::load(b"[flickr]\noauth_client_key = \"ck\"\n").is_none());
}

#[test]
fn load_drops_a_lone_access_token() {
    let doc = b"[flickr]\noauth_client_key = \"ck\"\noauth_client_secret = \"cs\"\noauth_access_token = \"AT\"\n";
    let loaded = CredentialStore::load(doc).expect("the section must load");
    assert_eq!(loaded.access_token, None);
    assert_eq!(loaded.access_token_secret, None);
}
