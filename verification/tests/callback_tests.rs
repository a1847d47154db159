use phupload::callback::CallbackListener;
use phupload::OauthError;

#[test]
fn verifier_extracted_from_request_line() {
    let r = CallbackListener::verifier_from_request_line(
        "GET /?oauth_verifier=abc123&extra=1 HTTP/1.1",
    );
    assert_eq!(r.unwrap(), "abc123");
}

#[test]
fn verifier_first_pair_wins_and_decodes() {
    let r = CallbackListener::verifier_from_request_line(
        "GET /?x=1&oauth_verifier=a%20b+c&oauth_verifier=later HTTP/1.1",
    );
    assert_eq!(r.unwrap(), "a b c");
}

#[test]
fn line_without_verifier_is_malformed() {
    let r = CallbackListener::verifier_from_request_line("GET /?extra=1 HTTP/1.1");
    assert!(matches!(r, Err(OauthError::MalformedResponse(_))));
}

#[test]
fn line_without_query_is_malformed() {
    let r = CallbackListener::verifier_from_request_line("GET / HTTP/1.1");
    assert!(matches!(r, Err(OauthError::MalformedResponse(_))));
}

#[test]
fn line_without_target_is_malformed() {
    let r = CallbackListener::verifier_from_request_line("GET");
    assert!(matches!(r, Err(OauthError::MalformedResponse(_))));
    let r = CallbackListener::verifier_from_request_line("");
    assert!(matches!(r, Err(OauthError::MalformedResponse(_))));
}

#[test]
fn confirmation_response_counts_body_bytes() {
    let r = CallbackListener::http_ok_response("Go back to your terminal");
    assert_eq!(
        r,
        "HTTP/1.1 200 OK\r\ncontent-length: 24\r\n\r\nGo back to your terminal"
    );
}
