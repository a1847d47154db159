use vstd::prelude::*;

pub mod bytes;
pub mod callback;
pub mod canonical;
pub mod cloudinary;
pub mod crypto;
pub mod encoding;
pub mod flow;
pub mod form;
pub mod metadata;
pub mod oauth;
pub mod store;
pub mod strings;

verus! {

/// Kinds of failure the authorization engine can report, mirroring the
/// distinct outcomes a caller needs to tell apart: the remote side was
/// unreachable or answered with an error, the remote side answered with a
/// body that does not parse, the local callback listener could not be set
/// up, waiting for the callback timed out, or the updated credentials could
/// not be written back.
#[derive(Debug)]
pub enum OauthError {
    GatewayError(Option<String>),
    MalformedResponse(Option<String>),
    ListenerSetupError(Option<String>),
    TimeoutError(Option<String>),
    PersistenceError(Option<String>),
}

/// One photo on its way out: where it lives, its raw bytes, the metadata
/// record, and the URL the first destination published it under.
pub struct Upload<'a> {
    pub path: &'a str,
    pub photo: &'a [u8],
    pub metadata: crate::metadata::Metadata,
    pub url: Option<String>,
}

} // verus!
