//! The three-legged token exchange: the credentials record, the signed
//! requests the flow sends, and the state machine that walks
//! `Unauthenticated` through `Persisted`. All network traffic is the
//! caller's: each transition hands back the request to perform or the body
//! it received.
use vstd::prelude::*;
use vstd::string::StringSliceAdditionalSpecFns;
use vstd::string::StringExecFns;
use vstd::utf8::{encode_utf8, valid_utf8};
use crate::OauthError;
use crate::canonical::base_string_spec;
use crate::form::{form_pairs, form_wf, lookup_last, parse_form_pairs, lookup_pair_last};
use crate::oauth::{signature_spec, signing_key_spec, Oauth};
use crate::strings::{join_strings, joined_strings, string_from_utf8};

verus! {

/// The credential record the flow enriches: the static client pair from
/// configuration, the ephemeral request token, its secret and the verifier,
/// and the final access pair that is persisted.
#[derive(Clone, Debug)]
pub struct Credentials {
    pub client_key: String,
    pub client_secret: String,
    pub token: Option<String>,
    pub token_secret: Option<String>,
    pub verifier: Option<String>,
    pub access_token: Option<String>,
    pub access_token_secret: Option<String>,
}

impl Credentials {
    /// The record's invariant: the access token and its secret are either
    /// both present or both absent.
    pub open spec fn wf(&self) -> bool {
        self.access_token is Some <==> self.access_token_secret is Some
    }

    /// Whether a non-empty access token is already held, which lets the
    /// whole exchange be skipped.
    pub open spec fn has_access_token(&self) -> bool {
        self.access_token matches Some(t) && t@.len() > 0
    }
}

/// One request as the flow sends it: method, target URL, and the parameter
/// list, the signature last once computed.
#[derive(Clone, Debug)]
pub struct SignedRequest {
    pub method: String,
    pub url: String,
    pub params: Vec<(String, String)>,
}

/// The bytes of the key `oauth_token`.
pub open spec fn token_key() -> Seq<u8> {
    seq![
        ('o' as u8),
        ('a' as u8),
        ('u' as u8),
        ('t' as u8),
        ('h' as u8),
        ('_' as u8),
        ('t' as u8),
        ('o' as u8),
        ('k' as u8),
        ('e' as u8),
        ('n' as u8),
    ]
}

/// The bytes of the key `oauth_token_secret`.
pub open spec fn token_secret_key() -> Seq<u8> {
    token_key() + seq![
        ('_' as u8),
        ('s' as u8),
        ('e' as u8),
        ('c' as u8),
        ('r' as u8),
        ('e' as u8),
        ('t' as u8),
    ]
}

fn token_key_exec() -> (r: Vec<u8>)
    ensures
        r@ == token_key(),
{
    let mut k: Vec<u8> = Vec::new();
    k.push('o' as u8);
    k.push('a' as u8);
    k.push('u' as u8);
    k.push('t' as u8);
    k.push('h' as u8);
    k.push('_' as u8);
    k.push('t' as u8);
    k.push('o' as u8);
    k.push('k' as u8);
    k.push('e' as u8);
    k.push('n' as u8);
    proof {
        assert(k@ =~= token_key());
    }
    k
}

fn token_secret_key_exec() -> (r: Vec<u8>)
    ensures
        r@ == token_secret_key(),
{
    let mut k = token_key_exec();
    k.push('_' as u8);
    k.push('s' as u8);
    k.push('e' as u8);
    k.push('c' as u8);
    k.push('r' as u8);
    k.push('e' as u8);
    k.push('t' as u8);
    proof {
        assert(k@ =~= token_secret_key());
    }
    k
}

/// What a token endpoint's body yields for one key: the last `key=value`
/// pair's raw value, read back as text.
pub open spec fn token_response_value(body: Seq<u8>, key: Seq<u8>) -> Option<Seq<u8>> {
    lookup_last(form_pairs(body), key)
}

/// A token response is good when it splits into `key=value` pairs and
/// carries well-formed text for both `oauth_token` and `oauth_token_secret`.
pub open spec fn token_response_ok(body: Seq<u8>) -> bool {
    &&& form_wf(body)
    &&& token_response_value(body, token_key()) matches Some(t) && valid_utf8(t)
    &&& token_response_value(body, token_secret_key()) matches Some(s) && valid_utf8(s)
}

/// Parse a token endpoint's response body into the token and its secret.
/// Exactly a body of `key=value` pairs carrying both keys with well-formed
/// text parses; anything else is a malformed response.
pub fn parse_token_response(body: &str) -> (r: Result<(String, String), OauthError>)
    ensures
        match r {
            Ok(ts) => token_response_ok(body.spec_bytes()) && Some(encode_utf8(ts.0@))
                == token_response_value(body.spec_bytes(), token_key()) && Some(
                encode_utf8(ts.1@),
            ) == token_response_value(body.spec_bytes(), token_secret_key()),
            Err(e) => e is MalformedResponse && !token_response_ok(body.spec_bytes()),
        },
{
    broadcast use vstd::utf8::encode_utf8_decode_utf8;

    let pairs = match parse_form_pairs(body.as_bytes()) {
        Some(p) => p,
        None => {
            return Err(
                OauthError::MalformedResponse(
                    Some(String::from_str("token response is not key=value pairs")),
                ),
            );
        },
    };
    let tk = token_key_exec();
    let sk = token_secret_key_exec();
    let token_bytes = match lookup_pair_last(&pairs, tk.as_slice()) {
        Some(v) => v,
        None => {
            return Err(
                OauthError::MalformedResponse(
                    Some(String::from_str("token response carries no token")),
                ),
            );
        },
    };
    let secret_bytes = match lookup_pair_last(&pairs, sk.as_slice()) {
        Some(v) => v,
        None => {
            return Err(
                OauthError::MalformedResponse(
                    Some(String::from_str("token response carries no token secret")),
                ),
            );
        },
    };
    let ghost tb = token_bytes@;
    let token = match string_from_utf8(token_bytes) {
        Some(t) => t,
        None => {
            return Err(
                OauthError::MalformedResponse(
                    Some(String::from_str("token is not well-formed text")),
                ),
            );
        },
    };
    let ghost sb = secret_bytes@;
    let secret = match string_from_utf8(secret_bytes) {
        Some(t) => t,
        None => {
            return Err(
                OauthError::MalformedResponse(
                    Some(String::from_str("token secret is not well-formed text")),
                ),
            );
        },
    };
    proof {
        vstd::utf8::decode_utf8_encode_utf8(tb);
        vstd::utf8::decode_utf8_encode_utf8(sb);
    }
    Ok((token, secret))
}


/// Request parameters as byte pairs: each name and value UTF-8 encoded.
pub open spec fn params_utf8(ps: Seq<(Seq<char>, Seq<char>)>) -> Seq<(Seq<u8>, Seq<u8>)> {
    ps.map(|i: int, p: (Seq<char>, Seq<char>)| (encode_utf8(p.0), encode_utf8(p.1)))
}

/// The signature of a request: the key derived from the client secret and
/// the stage's token secret, over the base string of method, URL and
/// parameters.
pub open spec fn request_signature(
    client_secret: Seq<char>,
    token_secret: Seq<u8>,
    method: Seq<char>,
    url: Seq<char>,
    params: Seq<(Seq<char>, Seq<char>)>,
) -> Seq<char> {
    signature_spec(
        signing_key_spec(encode_utf8(client_secret), token_secret),
        base_string_spec(encode_utf8(method), encode_utf8(url), params_utf8(params)),
    )
}

/// The protocol parameters every signed request starts from.
pub open spec fn base_oauth_params(
    client_key: Seq<char>,
    nonce: Seq<char>,
    ts: Seq<char>,
) -> Seq<(Seq<char>, Seq<char>)> {
    seq![
        ("oauth_nonce"@, nonce),
        ("oauth_timestamp"@, ts),
        ("oauth_consumer_key"@, client_key),
        ("oauth_version"@, "1.0"@),
        ("oauth_signature_method"@, "HMAC-SHA1"@),
    ]
}

/// The parameters of the request-token request, before its signature.
pub open spec fn request_token_params(
    c: Credentials,
    nonce: Seq<char>,
    ts: Seq<char>,
) -> Seq<(Seq<char>, Seq<char>)> {
    base_oauth_params(c.client_key@, nonce, ts).push(
        ("oauth_callback"@, "http://localhost:8282"@),
    )
}

/// The parameters of the access-token request, before its signature.
pub open spec fn access_token_params(
    c: Credentials,
    nonce: Seq<char>,
    ts: Seq<char>,
) -> Seq<(Seq<char>, Seq<char>)>
    recommends
        c.token is Some,
        c.verifier is Some,
{
    base_oauth_params(c.client_key@, nonce, ts).push(
        ("oauth_callback"@, "http://localhost:8282"@),
    ).push(("oauth_verifier"@, c.verifier->0@)).push(("oauth_token"@, c.token->0@))
}

/// Append one parameter.
fn push_param(ps: &mut Vec<(String, String)>, k: &str, v: String)
    ensures
        final(ps).deep_view() == old(ps).deep_view().push((k@, v@)),
{
    let ghost dv = ps.deep_view();
    let ghost vv = v@;
    ps.push((String::from_str(k), v));
    proof {
        assert(ps.deep_view() =~~= dv.push((k@, vv)));
    }
}

/// The shared leading parameters, built.
fn base_params_exec(client_key: &String, nonce: String, ts: String) -> (r: Vec<(String, String)>)
    ensures
        r.deep_view() == base_oauth_params(client_key@, nonce@, ts@),
{
    let mut ps: Vec<(String, String)> = Vec::new();
    proof {
        assert(ps.deep_view() =~= Seq::<(Seq<char>, Seq<char>)>::empty());
    }
    push_param(&mut ps, "oauth_nonce", nonce);
    push_param(&mut ps, "oauth_timestamp", ts);
    push_param(&mut ps, "oauth_consumer_key", client_key.clone());
    push_param(&mut ps, "oauth_version", String::from_str("1.0"));
    push_param(&mut ps, "oauth_signature_method", String::from_str("HMAC-SHA1"));
    proof {
        assert(ps.deep_view() =~= base_oauth_params(client_key@, nonce@, ts@));
    }
    ps
}

/// Turn parameters into byte pairs for the canonicalizer.
fn params_to_bytes(ps: &Vec<(String, String)>) -> (r: Vec<(Vec<u8>, Vec<u8>)>)
    ensures
        r.deep_view() == params_utf8(ps.deep_view()),
{
    let mut out: Vec<(Vec<u8>, Vec<u8>)> = Vec::new();
    let mut i: usize = 0;
    proof {
        assert(out.deep_view() =~= params_utf8(ps.deep_view().take(0)));
    }
    while i < ps.len()
        invariant
            i <= ps@.len(),
            ps.deep_view().len() == ps@.len(),
            out.deep_view() == params_utf8(ps.deep_view().take(i as int)),
        decreases ps@.len() - i,
    {
        let k = ps[i].0.as_str().as_bytes_vec();
        let v = ps[i].1.as_str().as_bytes_vec();
        let ghost out_dv = out.deep_view();
        out.push((k, v));
        proof {
            let dv = ps.deep_view();
            assert(dv[i as int] == (ps@[i as int].0@, ps@[i as int].1@));
            assert(out.deep_view() =~~= out_dv.push((k@, v@)));
            assert(params_utf8(dv.take(i + 1 as int)) =~= params_utf8(dv.take(i as int)).push(
                (encode_utf8(dv[i as int].0), encode_utf8(dv[i as int].1)),
            ));
        }
        i = i + 1;
    }
    proof {
        assert(ps.deep_view().take(ps.deep_view().len() as int) =~= ps.deep_view());
    }
    out
}

/// Sign the built parameters and finish the request: the signature joins
/// the parameter list under `oauth_signature`, and nothing else changes.
fn finish_request(
    method: &str,
    url: &str,
    key: Vec<u8>,
    params: Vec<(String, String)>,
) -> (r: SignedRequest)
    ensures
        r.method@ == method@,
        r.url@ == url@,
        r.params.deep_view() == params.deep_view().push(
            (
                "oauth_signature"@,
                signature_spec(
                    key@,
                    base_string_spec(method.spec_bytes(), url.spec_bytes(), params_utf8(params.deep_view())),
                ),
            ),
        ),
{
    let bytes_params = params_to_bytes(&params);
    let signature = Oauth::create_signature(key.as_slice(), method, url, bytes_params);
    let mut params = params;
    push_param(&mut params, "oauth_signature", signature);
    SignedRequest { method: String::from_str(method), url: String::from_str(url), params }
}

/// Build the signed request-token request: a GET against the request-token
/// endpoint carrying the base parameters and the local callback URL, signed
/// with the client secret alone.
pub fn build_request_token_request(c: &Credentials, nonce: String, ts: String) -> (r: SignedRequest)
    ensures
        r.method@ == "GET"@,
        r.url@ == "https://www.flickr.com/services/oauth/request_token"@,
        r.params.deep_view() == request_token_params(*c, nonce@, ts@).push(
            (
                "oauth_signature"@,
                request_signature(
                    c.client_secret@,
                    Seq::empty(),
                    "GET"@,
                    "https://www.flickr.com/services/oauth/request_token"@,
                    request_token_params(*c, nonce@, ts@),
                ),
            ),
        ),
{
    let ghost nv = nonce@;
    let ghost tv = ts@;
    let mut params = base_params_exec(&c.client_key, nonce, ts);
    push_param(&mut params, "oauth_callback", String::from_str("http://localhost:8282"));
    proof {
        assert(params.deep_view() =~= request_token_params(*c, nv, tv));
    }
    let key = Oauth::key(c.client_secret.as_str(), None);
    finish_request("GET", "https://www.flickr.com/services/oauth/request_token", key, params)
}

/// Build the signed access-token request: a GET against the access-token
/// endpoint carrying the verifier and the request token, signed with the
/// client secret and the request token secret.
pub fn build_access_token_request(c: &Credentials, nonce: String, ts: String) -> (r: SignedRequest)
    requires
        c.token is Some,
        c.token_secret is Some,
        c.verifier is Some,
    ensures
        r.method@ == "GET"@,
        r.url@ == "https://www.flickr.com/services/oauth/access_token"@,
        r.params.deep_view() == access_token_params(*c, nonce@, ts@).push(
            (
                "oauth_signature"@,
                request_signature(
                    c.client_secret@,
                    encode_utf8(c.token_secret->0@),
                    "GET"@,
                    "https://www.flickr.com/services/oauth/access_token"@,
                    access_token_params(*c, nonce@, ts@),
                ),
            ),
        ),
{
    let ghost nv = nonce@;
    let ghost tv = ts@;
    let mut params = base_params_exec(&c.client_key, nonce, ts);
    push_param(&mut params, "oauth_callback", String::from_str("http://localhost:8282"));
    let verifier = match &c.verifier {
        Some(v) => v.clone(),
        None => String::new(),
    };
    push_param(&mut params, "oauth_verifier", verifier);
    let token = match &c.token {
        Some(t) => t.clone(),
        None => String::new(),
    };
    push_param(&mut params, "oauth_token", token);
    proof {
        assert(params.deep_view() =~= access_token_params(*c, nv, tv));
    }
    let secret = match &c.token_secret {
        Some(s) => s.clone(),
        None => String::new(),
    };
    let key = Oauth::key(c.client_secret.as_str(), Some(secret.as_str()));
    finish_request("GET", "https://www.flickr.com/services/oauth/access_token", key, params)
}

/// Where the exchange stands, one tagged state per stage.
#[derive(Clone, Copy, PartialEq, Eq, Debug)]
pub enum FlowStage {
    Unauthenticated,
    RequestTokenObtained,
    UserAuthorized,
    AccessTokenObtained,
    Persisted,
}

/// The exchange's state machine: the stage reached and the credentials as
/// enriched so far. Each transition is a function from the previous state
/// and the outside event to the next; the caller performs the network and
/// listener work between them.
pub struct TokenExchangeFlow {
    pub stage: FlowStage,
    pub credentials: Credentials,
}

impl TokenExchangeFlow {
    /// What each stage guarantees of the credentials it holds.
    pub open spec fn wf(self) -> bool {
        &&& self.credentials.wf()
        &&& match self.stage {
            FlowStage::Unauthenticated => true,
            FlowStage::RequestTokenObtained => self.credentials.token is Some
                && self.credentials.token_secret is Some,
            FlowStage::UserAuthorized => self.credentials.token is Some
                && self.credentials.token_secret is Some && self.credentials.verifier is Some,
            FlowStage::AccessTokenObtained => self.credentials.access_token is Some,
            FlowStage::Persisted => self.credentials.access_token is Some,
        }
    }

    /// Start the exchange. With a non-empty access token already in hand the
    /// flow skips straight to `AccessTokenObtained`: no request to send, no
    /// listener to bind, the credentials unchanged. Otherwise the flow is
    /// `Unauthenticated` and hands back the request-token request to send.
    pub fn start(credentials: Credentials, nonce: String, ts: String) -> (r: (
        TokenExchangeFlow,
        Option<SignedRequest>,
    ))
        requires
            credentials.wf(),
        ensures
            r.0.wf(),
            r.0.credentials == credentials,
            credentials.has_access_token() ==> r.0.stage is AccessTokenObtained && r.1 is None,
            !credentials.has_access_token() ==> r.0.stage is Unauthenticated && (match r.1 {
                Some(req) => req.method@ == "GET"@ && req.url@
                    == "https://www.flickr.com/services/oauth/request_token"@
                    && req.params.deep_view() == request_token_params(
                    credentials,
                    nonce@,
                    ts@,
                ).push(
                    (
                        "oauth_signature"@,
                        request_signature(
                            credentials.client_secret@,
                            Seq::empty(),
                            "GET"@,
                            "https://www.flickr.com/services/oauth/request_token"@,
                            request_token_params(credentials, nonce@, ts@),
                        ),
                    ),
                ),
                None => false,
            }),
    {
        let skip = match &credentials.access_token {
            Some(t) => !t.as_str().is_empty(),
            None => false,
        };
        if skip {
            (TokenExchangeFlow { stage: FlowStage::AccessTokenObtained, credentials }, None)
        } else {
            let req = build_request_token_request(&credentials, nonce, ts);
            (TokenExchangeFlow { stage: FlowStage::Unauthenticated, credentials }, Some(req))
        }
    }

    /// Take the request-token endpoint's response body: on a good body the
    /// flow holds the token pair and hands back the authorization URL for
    /// the user's browser; any other body is a malformed response and the
    /// flow is abandoned.
    pub fn on_request_token_response(self, body: &str) -> (r: Result<
        (TokenExchangeFlow, String),
        OauthError,
    >)
        requires
            self.wf(),
            self.stage is Unauthenticated,
        ensures
            match r {
                Ok(fu) => {
                    &&& token_response_ok(body.spec_bytes())
                    &&& fu.0.wf()
                    &&& fu.0.stage is RequestTokenObtained
                    &&& fu.0.credentials.token matches Some(t) && Some(encode_utf8(t@))
                        == token_response_value(body.spec_bytes(), token_key())
                    &&& fu.0.credentials.token_secret matches Some(s) && Some(encode_utf8(s@))
                        == token_response_value(body.spec_bytes(), token_secret_key())
                    &&& fu.0.credentials.client_key == self.credentials.client_key
                    &&& fu.0.credentials.client_secret == self.credentials.client_secret
                    &&& fu.0.credentials.verifier == self.credentials.verifier
                    &&& fu.0.credentials.access_token == self.credentials.access_token
                    &&& fu.0.credentials.access_token_secret
                        == self.credentials.access_token_secret
                    &&& fu.1@ == "https://www.flickr.com/services/oauth/authorize?oauth_token="@
                        + fu.0.credentials.token->0@ + "&perms=write"@
                },
                Err(e) => e is MalformedResponse && !token_response_ok(body.spec_bytes()),
            },
    {
        let (token, secret) = match parse_token_response(body) {
            Ok(ts) => ts,
            Err(e) => {
                return Err(e);
            },
        };
        let mut auth_url = String::from_str(
            "https://www.flickr.com/services/oauth/authorize?oauth_token=",
        );
        auth_url.append(token.as_str());
        auth_url.append("&perms=write");
        let credentials = Credentials {
            token: Some(token),
            token_secret: Some(secret),
            ..self.credentials
        };
        Ok((TokenExchangeFlow { stage: FlowStage::RequestTokenObtained, credentials }, auth_url))
    }

    /// Take the verifier the callback listener captured: the flow is
    /// user-authorized and hands back the signed access-token request.
    pub fn on_verifier(self, verifier: String, nonce: String, ts: String) -> (r: (
        TokenExchangeFlow,
        SignedRequest,
    ))
        requires
            self.wf(),
            self.stage is RequestTokenObtained,
        ensures
            r.0.wf(),
            r.0.stage is UserAuthorized,
            r.0.credentials.verifier matches Some(v) && v == verifier,
            r.0.credentials.client_key == self.credentials.client_key,
            r.0.credentials.client_secret == self.credentials.client_secret,
            r.0.credentials.token == self.credentials.token,
            r.0.credentials.token_secret == self.credentials.token_secret,
            r.0.credentials.access_token == self.credentials.access_token,
            r.0.credentials.access_token_secret == self.credentials.access_token_secret,
            r.1.method@ == "GET"@,
            r.1.url@ == "https://www.flickr.com/services/oauth/access_token"@,
            r.1.params.deep_view() == access_token_params(r.0.credentials, nonce@, ts@).push(
                (
                    "oauth_signature"@,
                    request_signature(
                        self.credentials.client_secret@,
                        encode_utf8(self.credentials.token_secret->0@),
                        "GET"@,
                        "https://www.flickr.com/services/oauth/access_token"@,
                        access_token_params(r.0.credentials, nonce@, ts@),
                    ),
                ),
            ),
    {
        let credentials = Credentials { verifier: Some(verifier), ..self.credentials };
        let req = build_access_token_request(&credentials, nonce, ts);
        (TokenExchangeFlow { stage: FlowStage::UserAuthorized, credentials }, req)
    }

    /// Take the access-token endpoint's response body: on a good body the
    /// flow holds the access pair; any other body is a malformed response.
    pub fn on_access_token_response(self, body: &str) -> (r: Result<TokenExchangeFlow, OauthError>)
        requires
            self.wf(),
            self.stage is UserAuthorized,
        ensures
            match r {
                Ok(f) => {
                    &&& token_response_ok(body.spec_bytes())
                    &&& f.wf()
                    &&& f.stage is AccessTokenObtained
                    &&& f.credentials.access_token matches Some(t) && Some(encode_utf8(t@))
                        == token_response_value(body.spec_bytes(), token_key())
                    &&& f.credentials.access_token_secret matches Some(s) && Some(encode_utf8(s@))
                        == token_response_value(body.spec_bytes(), token_secret_key())
                    &&& f.credentials.client_key == self.credentials.client_key
                    &&& f.credentials.client_secret == self.credentials.client_secret
                    &&& f.credentials.token == self.credentials.token
                    &&& f.credentials.token_secret == self.credentials.token_secret
                    &&& f.credentials.verifier == self.credentials.verifier
                },
                Err(e) => e is MalformedResponse && !token_response_ok(body.spec_bytes()),
            },
    {
        let (token, secret) = match parse_token_response(body) {
            Ok(ts) => ts,
            Err(e) => {
                return Err(e);
            },
        };
        let credentials = Credentials {
            access_token: Some(token),
            access_token_secret: Some(secret),
            ..self.credentials
        };
        Ok(TokenExchangeFlow { stage: FlowStage::AccessTokenObtained, credentials })
    }

    /// Record that the credentials were written back: the exchange is done.
    pub fn mark_persisted(self) -> (r: TokenExchangeFlow)
        requires
            self.wf(),
            self.stage is AccessTokenObtained,
        ensures
            r.wf(),
            r.stage is Persisted,
            r.credentials == self.credentials,
    {
        TokenExchangeFlow { stage: FlowStage::Persisted, credentials: self.credentials }
    }
}


/// The parameters of the upload request, before its signature.
pub open spec fn upload_params(
    c: Credentials,
    nonce: Seq<char>,
    ts: Seq<char>,
    title: Seq<char>,
    description: Seq<char>,
    tags: Seq<char>,
) -> Seq<(Seq<char>, Seq<char>)>
    recommends
        c.access_token is Some,
{
    base_oauth_params(c.client_key@, nonce, ts).push(("oauth_token"@, c.access_token->0@)).push(
        ("format"@, "json"@),
    ).push(("title"@, title)).push(("description"@, description)).push(("tags"@, tags)).push(
        ("content_type"@, "1"@),
    )
}

/// Build the signed upload request: a POST against the upload endpoint
/// carrying the photo's title, description and space-joined tags, signed
/// with the client secret and the access token secret.
pub fn build_upload_request(
    c: &Credentials,
    title: &str,
    description: &str,
    tags: &str,
    nonce: String,
    ts: String,
) -> (r: SignedRequest)
    requires
        c.access_token is Some,
        c.access_token_secret is Some,
    ensures
        r.method@ == "POST"@,
        r.url@ == "https://up.flickr.com/services/upload/"@,
        r.params.deep_view() == upload_params(*c, nonce@, ts@, title@, description@, tags@).push(
            (
                "oauth_signature"@,
                request_signature(
                    c.client_secret@,
                    encode_utf8(c.access_token_secret->0@),
                    "POST"@,
                    "https://up.flickr.com/services/upload/"@,
                    upload_params(*c, nonce@, ts@, title@, description@, tags@),
                ),
            ),
        ),
{
    let ghost nv = nonce@;
    let ghost tv = ts@;
    let mut params = base_params_exec(&c.client_key, nonce, ts);
    let access = match &c.access_token {
        Some(t) => t.clone(),
        None => String::new(),
    };
    push_param(&mut params, "oauth_token", access);
    push_param(&mut params, "format", String::from_str("json"));
    push_param(&mut params, "title", title.to_owned());
    push_param(&mut params, "description", description.to_owned());
    push_param(&mut params, "tags", tags.to_owned());
    push_param(&mut params, "content_type", String::from_str("1"));
    proof {
        assert(params.deep_view() =~= upload_params(*c, nv, tv, title@, description@, tags@));
    }
    let secret = match &c.access_token_secret {
        Some(s) => s.clone(),
        None => String::new(),
    };
    let key = Oauth::key(c.client_secret.as_str(), Some(secret.as_str()));
    finish_request("POST", "https://up.flickr.com/services/upload/", key, params)
}

impl crate::store::Flickr {
    /// The compute half of an upload: join the photo's tags with spaces and
    /// build the signed upload request from its metadata. Sending the
    /// multipart body is the caller's I/O.
    pub fn upload_request(c: &Credentials, photo: &crate::Upload, nonce: String, ts: String) -> (r:
        SignedRequest)
        requires
            c.access_token is Some,
            c.access_token_secret is Some,
        ensures
            r.method@ == "POST"@,
            r.url@ == "https://up.flickr.com/services/upload/"@,
            r.params.deep_view() == ({
                let tags = joined_strings(photo.metadata.tags.deep_view(), " "@);
                upload_params(
                    *c,
                    nonce@,
                    ts@,
                    photo.metadata.title@,
                    photo.metadata.description@,
                    tags,
                ).push(
                    (
                        "oauth_signature"@,
                        request_signature(
                            c.client_secret@,
                            encode_utf8(c.access_token_secret->0@),
                            "POST"@,
                            "https://up.flickr.com/services/upload/"@,
                            upload_params(
                                *c,
                                nonce@,
                                ts@,
                                photo.metadata.title@,
                                photo.metadata.description@,
                                tags,
                            ),
                        ),
                    ),
                )
            }),
    {
        let tags = join_strings(&photo.metadata.tags, " ");
        build_upload_request(
            c,
            photo.metadata.title.as_str(),
            photo.metadata.description.as_str(),
            tags.as_str(),
            nonce,
            ts,
        )
    }
}

} // verus!
