use vstd::prelude::*;

use crate::request::opt_text;
use crate::text::{
    is_blank, is_blank_str, lemma_trim_end_char_normal, trim, trim_end_char,
    trim_end_matches_char, trim_str,
};

verus! {

#[verifier::external_type_specification]
#[verifier::external_body]
pub struct ExHttpClient(reqwest::blocking::Client);

#[verifier::external_type_specification]
#[verifier::external_body]
pub struct ExHttpError(reqwest::Error);

/// The request timeout, in seconds, that a blocking reqwest client was built with.
pub uninterp spec fn client_timeout_secs(c: reqwest::blocking::Client) -> u64;

/// Calls `reqwest::blocking::Client::builder()`, sets its timeout to `timeout_secs`
/// seconds and calls `build()`. Claimed: a client that comes back was built with that
/// timeout (the builder stores it and the client's handle applies it to each request).
/// Whether the build succeeds is not claimed: it fails where the TLS backend or the
/// resolver cannot be set up, which rests on the machine. The builder panics when
/// called from within an async runtime, a condition of the caller's thread that no
/// clause here can state.
#[verifier::external_body]
fn build_http_client(timeout_secs: u64) -> (r: Result<reqwest::blocking::Client, reqwest::Error>)
    ensures
        r matches Ok(c) ==> client_timeout_secs(c) == timeout_secs,
{
    reqwest::blocking::Client::builder().timeout(std::time::Duration::from_secs(timeout_secs)).build()
}

/// The base URL used when none is given.
pub open spec fn default_base_url() -> Seq<char> {
    "https://api.typesafe.ai"@
}

/// The base URL a client uses: the one given, or the default, without trailing `/`.
pub open spec fn normalized_base_url(base_url: Option<Seq<char>>) -> Seq<char> {
    trim_end_char(
        match base_url {
            Some(u) => u,
            None => default_base_url(),
        },
        '/',
    )
}

/// The path of the evaluation endpoint below the base URL.
pub open spec fn endpoint_path() -> Seq<char> {
    "/v1/systemone"@
}

/// Why a client could not be made or a call could not be answered.
#[derive(Debug)]
pub enum ClientError {
    /// No usable API key reached the command line.
    MissingApiKey,
    /// The client was given a blank API key.
    ApiKeyRequired,
    /// The HTTP client could not be built.
    HttpClient(reqwest::Error),
}

impl ClientError {
    /// The text that reports this error (the HTTP client's own error comes after it).
    pub fn message(&self) -> (r: String)
        ensures
            r@ == match self {
                ClientError::MissingApiKey =>
                    "Missing TypeSafe API key. Set TYPESAFE_API_KEY environment variable or pass --api-key."@,
                ClientError::ApiKeyRequired =>
                    "TypeSafe API key is required. Set TYPESAFE_API_KEY environment variable or pass --api-key."@,
                ClientError::HttpClient(_) => "Failed to build HTTP client"@,
            },
    {
        match self {
            ClientError::MissingApiKey => String::from_str(
                "Missing TypeSafe API key. Set TYPESAFE_API_KEY environment variable or pass --api-key.",
            ),
            ClientError::ApiKeyRequired => String::from_str(
                "TypeSafe API key is required. Set TYPESAFE_API_KEY environment variable or pass --api-key.",
            ),
            ClientError::HttpClient(_) => String::from_str("Failed to build HTTP client"),
        }
    }
}

/// Keeps the API key given on the command line, unless there is none or it is blank.
pub fn require_api_key(api_key: Option<String>) -> (r: Result<String, ClientError>)
    ensures
        match api_key {
            Some(k) => if is_blank(k@) {
                r matches Err(ClientError::MissingApiKey)
            } else {
                r == Ok::<String, ClientError>(k)
            },
            None => r matches Err(ClientError::MissingApiKey),
        },
{
    match api_key {
        Some(k) => if is_blank_str(k.as_str()) {
            Err(ClientError::MissingApiKey)
        } else {
            Ok(k)
        },
        None => Err(ClientError::MissingApiKey),
    }
}

/// Client for the System One evaluation endpoint.
#[derive(Debug)]
pub struct TypeSafeClient {
    api_key: String,
    base_url: String,
    client: reqwest::blocking::Client,
}

impl TypeSafeClient {
    /// The API key the client sends.
    pub closed spec fn api_key_view(self) -> Seq<char> {
        self.api_key@
    }

    /// The base URL the client calls.
    pub closed spec fn base_url_view(self) -> Seq<char> {
        self.base_url@
    }

    /// The HTTP client that carries the calls.
    pub closed spec fn http_client_view(self) -> reqwest::blocking::Client {
        self.client
    }

    /// Makes a client with the API key, the base URL (the default where none is given,
    /// without trailing `/`) and the timeout in seconds; a blank API key is refused
    /// before anything else is done.
    pub fn new(api_key: String, base_url: Option<String>, timeout_secs: u64) -> (r: Result<Self, ClientError>)
        ensures
            is_blank(api_key@) ==> r matches Err(ClientError::ApiKeyRequired),
            !is_blank(api_key@) ==> match r {
                Ok(c) => c.api_key_view() == api_key@ && c.base_url_view() == normalized_base_url(
                    opt_text(base_url),
                ) && client_timeout_secs(c.http_client_view()) == timeout_secs,
                Err(e) => e is HttpClient,
            },
    {
        if is_blank_str(api_key.as_str()) {
            return Err(ClientError::ApiKeyRequired);
        }
        let given = match base_url {
            Some(u) => u,
            None => String::from_str("https://api.typesafe.ai"),
        };
        let base_url = trim_end_matches_char(given.as_str(), '/');
        match build_http_client(timeout_secs) {
            Ok(client) => Ok(TypeSafeClient { api_key, base_url, client }),
            Err(e) => Err(ClientError::HttpClient(e)),
        }
    }

    /// The API key the client sends.
    pub fn api_key(&self) -> (r: &str)
        ensures
            r@ == self.api_key_view(),
    {
        self.api_key.as_str()
    }

    /// The base URL the client calls.
    pub fn base_url(&self) -> (r: &str)
        ensures
            r@ == self.base_url_view(),
    {
        self.base_url.as_str()
    }

    /// The HTTP client that carries the calls.
    pub fn http_client(&self) -> (r: &reqwest::blocking::Client)
        ensures
            *r == self.http_client_view(),
    {
        &self.client
    }

    /// The URL of the evaluation endpoint: the base URL followed by `/v1/systemone`.
    pub fn endpoint(&self) -> (r: String)
        ensures
            r@ == self.base_url_view() + endpoint_path(),
    {
        let mut s = self.base_url.clone();
        s.append("/v1/systemone");
        s
    }
}

/// A base URL once normalized ends in no `/`, and normalizing it again changes nothing.
pub proof fn lemma_base_url_normal_form(base_url: Option<Seq<char>>)
    ensures
        normalized_base_url(base_url).len() > 0 ==> normalized_base_url(base_url).last() != '/',
        normalized_base_url(Some(normalized_base_url(base_url))) == normalized_base_url(base_url),
{
    let given = match base_url {
        Some(u) => u,
        None => default_base_url(),
    };
    lemma_trim_end_char_normal(given, '/');
}

/// Whether an HTTP status code reports success (200 to 299), as
/// `reqwest::StatusCode::is_success` tells.
pub open spec fn is_success(status: u16) -> bool {
    200 <= status < 300
}

/// A call that the API answered with a status other than success.
#[derive(Debug)]
pub struct ApiError {
    /// The HTTP status code.
    pub status: u16,
    /// The body of the answer, trimmed.
    pub body: String,
}

/// Accepts an answer with a success status; refuses any other, keeping its status and
/// its body trimmed.
pub fn check_status(status: u16, body: &str) -> (r: Result<(), ApiError>)
    ensures
        is_success(status) <==> r is Ok,
        (200 <= status && status <= 299) <==> r is Ok,
        r matches Err(e) ==> e.status == status && e.body@ == trim(body@),
{
    if 200 <= status && status < 300 {
        Ok(())
    } else {
        Err(ApiError { status, body: trim_str(body) })
    }
}


/// An answer counts as a success exactly when its status lies in 200..=299: every
/// redirect, client error and server error (300 and above, 500 and 503 among them)
/// and every status below 200 is refused.
pub proof fn lemma_success_is_2xx(status: u16)
    ensures
        is_success(status) <==> 200 <= status && status <= 299,
        status >= 300 ==> !is_success(status),
        status < 200 ==> !is_success(status),
{
}

} // verus!
