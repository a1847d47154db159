use phupload::flow::{
    parse_token_response, Credentials, FlowStage, SignedRequest, TokenExchangeFlow,
};
use phupload::store::Flickr;
use phupload::OauthError;

fn fresh_credentials() -> Credentials {
    Credentials {
        client_key: "ck".to_string(),
        client_secret: "cs".to_string(),
        token: None,
        token_secret: None,
        verifier: None,
        access_token: None,
        access_token_secret: None,
    }
}

fn param<'a>(req: &'a SignedRequest, key: &str) -> Option<&'a str> {
    req.params
        .iter()
        .find(|(k, _)| k == key)
        .map(|(_, v)| v.as_str())
}

#[test]
fn existing_access_token_skips_the_exchange() {
    let mut creds = fresh_credentials();
    creds.access_token = Some("AT".to_string());
    creds.access_token_secret = Some("AS".to_string());
    let before = creds.clone();
    let (flow, action) = TokenExchangeFlow::start(creds, "nonce123".to_string(), "1".to_string());
    assert!(action.is_none());
    assert_eq!(flow.stage, FlowStage::AccessTokenObtained);
    assert_eq!(flow.credentials.client_key, before.client_key);
    assert_eq!(flow.credentials.client_secret, before.client_secret);
    assert_eq!(flow.credentials.token, before.token);
    assert_eq!(flow.credentials.token_secret, before.token_secret);
    assert_eq!(flow.credentials.verifier, before.verifier);
    assert_eq!(flow.credentials.access_token, before.access_token);
    assert_eq!(flow.credentials.access_token_secret, before.access_token_secret);
}

#[test]
fn exchange_walks_to_persisted_with_stub_bodies() {
    let creds = fresh_credentials();
    let (flow, action) = TokenExchangeFlow::start(creds, "n1".to_string(), "t1".to_string());
    assert_eq!(flow.stage, FlowStage::Unauthenticated);
    let req = action.expect("a request-token request must be handed back");
    assert_eq!(req.method, "GET");
    assert_eq!(req.url, "https://www.flickr.com/services/oauth/request_token");
    assert_eq!(param(&req, "oauth_consumer_key"), Some("ck"));
    assert_eq!(param(&req, "oauth_nonce"), Some("n1"));
    assert_eq!(param(&req, "oauth_timestamp"), Some("t1"));
    assert_eq!(param(&req, "oauth_version"), Some("1.0"));
    assert_eq!(param(&req, "oauth_signature_method"), Some("HMAC-SHA1"));
    assert_eq!(param(&req, "oauth_callback"), Some("http://localhost:8282"));
    assert!(param(&req, "oauth_signature").is_some());

    let (flow, auth_url) = flow
        .on_request_token_response("oauth_token=T&oauth_token_secret=S")
        .expect("stub body parses");
    assert_eq!(flow.stage, FlowStage::RequestTokenObtained);
    assert_eq!(flow.credentials.token.as_deref(), Some("T"));
    assert_eq!(flow.credentials.token_secret.as_deref(), Some("S"));
    assert_eq!(
        auth_url,
        "https://www.flickr.com/services/oauth/authorize?oauth_token=T&perms=write"
    );

    let (flow, req2) = flow.on_verifier("V".to_string(), "n2".to_string(), "t2".to_string());
    assert_eq!(flow.stage, FlowStage::UserAuthorized);
    assert_eq!(flow.credentials.verifier.as_deref(), Some("V"));
    assert_eq!(req2.url, "https://www.flickr.com/services/oauth/access_token");
    assert_eq!(param(&req2, "oauth_verifier"), Some("V"));
    assert_eq!(param(&req2, "oauth_token"), Some("T"));

    let flow = flow
        .on_access_token_response("oauth_token=AT&oauth_token_secret=AS")
        .expect("stub body parses");
    assert_eq!(flow.stage, FlowStage::AccessTokenObtained);
    assert_eq!(flow.credentials.access_token.as_deref(), Some("AT"));
    assert_eq!(flow.credentials.access_token_secret.as_deref(), Some("AS"));

    let (creds, _doc) = Flickr::save_access_token(flow.credentials.clone(), b"");
    let flow = TokenExchangeFlow { credentials: creds, ..flow };
    let flow = flow.mark_persisted();
    assert_eq!(flow.stage, FlowStage::Persisted);
    assert_eq!(flow.credentials.access_token.as_deref(), Some("AT"));
    assert_eq!(flow.credentials.access_token_secret.as_deref(), Some("AS"));
}

#[test]
fn token_response_without_pairs_is_malformed() {
    let r = parse_token_response("not pairs at all");
    assert!(matches!(r, Err(OauthError::MalformedResponse(_))));
}

#[test]
fn token_response_missing_a_key_is_malformed() {
    let r = parse_token_response("oauth_token=T");
    assert!(matches!(r, Err(OauthError::MalformedResponse(_))));
    let r = parse_token_response("oauth_token_secret=S");
    assert!(matches!(r, Err(OauthError::MalformedResponse(_))));
}

#[test]
fn token_response_last_duplicate_wins() {
    let (t, s) =
        parse_token_response("oauth_token=first&oauth_token_secret=S&oauth_token=second").unwrap();
    assert_eq!(t, "second");
    assert_eq!(s, "S");
}

#[test]
fn token_response_parses_plain_pairs() {
    let (t, s) = parse_token_response("oauth_token=T&oauth_token_secret=S&extra=1").unwrap();
    assert_eq!(t, "T");
    assert_eq!(s, "S");
}
