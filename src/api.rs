//! Connection set-up for a PAN-OS device: the builder, the handshake that
//! turns credentials into an API key, and the decoding of its replies.
pub mod responses;
pub mod xml;

use vstd::prelude::*;
use crate::api::responses::{keygen_fields, response_status, decode_keygen_response, decode_response};

verus! {

/// Why a handshake, or the decoding of a reply, failed.
#[derive(Clone, Debug, PartialEq, Eq)]
pub enum ApiError {
    /// The builder's inputs are missing or invalid: an empty user name or
    /// password, or a base URL that does not parse.
    Configuration,
    /// The device could not be reached: DNS, TLS, a refused connection.
    Transport,
    /// A body came back that is not the expected XML envelope.
    Protocol,
    /// The envelope decoded, but its status is not `success`.
    Authentication { status: String },
}


#[verifier::external_type_specification]
#[verifier::external_body]
pub struct ExClient(reqwest::blocking::Client);

#[verifier::external_type_specification]
#[verifier::external_body]
pub struct ExClientBuilder(reqwest::blocking::ClientBuilder);

#[verifier::external_type_specification]
#[verifier::external_body]
pub struct ExProxy(reqwest::Proxy);

#[verifier::external_type_specification]
#[verifier::external_body]
pub struct ExReqwestError(reqwest::Error);

#[verifier::external_type_specification]
#[verifier::external_body]
pub struct ExParseError(url::ParseError);

/// Relies on `reqwest::blocking::Client::builder`: a builder with reqwest's defaults.
pub assume_specification[ reqwest::blocking::Client::builder ]() -> reqwest::blocking::ClientBuilder;

/// Relies on `reqwest::blocking::ClientBuilder::proxy`: routes requests through `proxy`.
pub assume_specification[ reqwest::blocking::ClientBuilder::proxy ](
    b: reqwest::blocking::ClientBuilder,
    proxy: reqwest::Proxy,
) -> reqwest::blocking::ClientBuilder;

/// Relies on `reqwest::blocking::ClientBuilder::danger_accept_invalid_certs`:
/// whether certificates that fail verification are accepted.
pub assume_specification[ reqwest::blocking::ClientBuilder::danger_accept_invalid_certs ](
    b: reqwest::blocking::ClientBuilder,
    accept_invalid_certs: bool,
) -> reqwest::blocking::ClientBuilder;

/// Relies on `reqwest::blocking::ClientBuilder::use_rustls_tls`: TLS through rustls.
pub assume_specification[ reqwest::blocking::ClientBuilder::use_rustls_tls ](
    b: reqwest::blocking::ClientBuilder,
) -> reqwest::blocking::ClientBuilder;

/// Relies on `reqwest::blocking::ClientBuilder::build`: the client, or the
/// error that kept the TLS backend or resolver from starting. (It panics
/// when called from inside an async runtime, which this crate never starts.)
pub assume_specification[ reqwest::blocking::ClientBuilder::build ](
    b: reqwest::blocking::ClientBuilder,
) -> Result<reqwest::blocking::Client, reqwest::Error>;

/// A name for what `url::Url::parse_with_params` makes of an input and a list
/// of query pairs: the serialised URL, or none where the input is not an
/// absolute URL.
pub uninterp spec fn url_with_params(input: Seq<char>, params: Seq<(Seq<char>, Seq<char>)>) -> Option<Seq<char>>;

/// Relies on `url::Url::parse_with_params`: parses `input` and appends the
/// pairs of `params` to its query; fails where `input` is not an absolute URL.
#[verifier::external_body]
fn parse_with_params(input: &str, params: &Vec<(String, String)>) -> (r: Result<String, url::ParseError>)
    ensures
        match url_with_params(input@, params.deep_view()) {
            None => r is Err,
            Some(u) => r matches Ok(v) && v@ == u,
        },
{
    url::Url::parse_with_params(input, params.iter().map(|(k, v)| (k.as_str(), v.as_str()))).map(String::from)
}

/// The query parameter that selects the key generation operation.
pub const KEYGEN_TYPE_PARAM: &'static str = "type";

/// Its value.
pub const KEYGEN_TYPE_VALUE: &'static str = "keygen";

/// The query pairs of a key generation request.
pub open spec fn keygen_params(user: Seq<char>, password: Seq<char>) -> Seq<(Seq<char>, Seq<char>)> {
    seq![("user"@, user), ("password"@, password), (KEYGEN_TYPE_PARAM@, KEYGEN_TYPE_VALUE@)]
}

/// What a builder holds.
pub struct BuilderView {
    pub username: Seq<char>,
    pub password: Seq<char>,
    pub url: Seq<char>,
    pub proxy: Option<reqwest::Proxy>,
    pub accept_invalid_certificates: bool,
}

/// The URL of the key generation request: `{url}/api` with the user, the
/// password and the operation as query parameters.
pub open spec fn keygen_url(v: BuilderView) -> Option<Seq<char>> {
    url_with_params(v.url + "/api"@, keygen_params(v.username, v.password))
}

/// Whether a builder's inputs allow a handshake: a user name and a password
/// that are not empty, and a base URL from which the request URL parses.
pub open spec fn config_ok(v: BuilderView) -> bool {
    v.username.len() > 0 && v.password.len() > 0 && keygen_url(v) is Some
}

/// A builder's contents once a proxy is set.
pub open spec fn with_proxy(v: BuilderView, p: reqwest::Proxy) -> BuilderView {
    BuilderView { proxy: Some(p), ..v }
}

/// A builder's contents once invalid certificates are accepted.
pub open spec fn with_invalid_certificates(v: BuilderView) -> BuilderView {
    BuilderView { accept_invalid_certificates: true, ..v }
}

/// Setting a proxy and accepting invalid certificates are independent of
/// each other: either order gives the same builder, and the proxy is set
/// afterwards.
pub proof fn lemma_configuration_order(v: BuilderView, p: reqwest::Proxy)
    ensures
        with_proxy(with_invalid_certificates(v), p) == with_invalid_certificates(with_proxy(v, p)),
        with_proxy(v, p).proxy == Some(p),
        with_invalid_certificates(with_proxy(v, p)).proxy == Some(p),
        with_proxy(with_invalid_certificates(v), p).accept_invalid_certificates,
{
}

/// What a connection holds that can be stated: its URL and API key.
pub struct ConnectionView {
    pub url: Seq<char>,
    pub api_key: Seq<char>,
}

/// Connection manages the HTTPS connection to the PAN-OS API, authenticated
/// by the API key that the handshake generated.
pub struct Connection {
    url: String,
    api_key: String,
    client: reqwest::blocking::Client,
}

impl View for Connection {
    type V = ConnectionView;

    closed spec fn view(&self) -> ConnectionView {
        ConnectionView { url: self.url@, api_key: self.api_key@ }
    }
}

impl Connection {
    /// A builder with empty credentials, no proxy, and certificate
    /// verification on.
    pub fn builder() -> (r: ConnectionBuilder)
        ensures
            r@ == (BuilderView {
                username: Seq::empty(),
                password: Seq::empty(),
                url: Seq::empty(),
                proxy: None,
                accept_invalid_certificates: false,
            }),
    {
        ConnectionBuilder::default()
    }

    /// The base URL of the device.
    pub fn url(&self) -> (r: &str)
        ensures
            r@ == self@.url,
    {
        self.url.as_str()
    }

    /// The API key that the handshake generated.
    pub fn api_key(&self) -> (r: &str)
        ensures
            r@ == self@.api_key,
    {
        self.api_key.as_str()
    }

    /// The HTTP client, configured as the builder asked.
    pub fn client(&self) -> &reqwest::blocking::Client {
        &self.client
    }
}

/// The outbound side of a handshake: one GET request.
pub trait Transport {
    /// Issues a GET of `url` with `client`: the body of the reply, or `None`
    /// where the device could not be reached.
    fn get(&mut self, client: &reqwest::blocking::Client, url: &str) -> Option<String>;
}

/// Parameters for connecting to a PAN-OS device: user name, password, base
/// URL with its scheme (`https://127.0.0.1`), an optional proxy, and whether
/// certificates that fail verification are accepted (off unless asked).
pub struct ConnectionBuilder {
    username: String,
    password: String,
    url: String,
    proxy: Option<reqwest::Proxy>,
    accept_invalid_certificates: bool,
}

impl View for ConnectionBuilder {
    type V = BuilderView;

    closed spec fn view(&self) -> BuilderView {
        BuilderView {
            username: self.username@,
            password: self.password@,
            url: self.url@,
            proxy: self.proxy,
            accept_invalid_certificates: self.accept_invalid_certificates,
        }
    }
}

impl Default for ConnectionBuilder {
    fn default() -> (r: ConnectionBuilder)
        ensures
            r@ == (BuilderView {
                username: Seq::empty(),
                password: Seq::empty(),
                url: Seq::empty(),
                proxy: None,
                accept_invalid_certificates: false,
            }),
    {
        ConnectionBuilder::new(String::new(), String::new(), String::new())
    }
}

/// The outcome of a handshake, given the status of the reply's envelope and
/// the key that its `result/key` decoded to (none where it did not decode):
/// `Authentication` with the status where it is not `success`; `Protocol`
/// where the key is missing or empty; the key otherwise.
pub fn session_key(status: String, key: Option<String>) -> (r: Result<String, ApiError>)
    ensures
        status@ != "success"@ ==> (r matches Err(ApiError::Authentication { status: s }) && s@
            == status@),
        status@ == "success"@ ==> match key {
            None => r == Err::<String, ApiError>(ApiError::Protocol),
            Some(k) => if k@.len() == 0 {
                r == Err::<String, ApiError>(ApiError::Protocol)
            } else {
                r matches Ok(v) && v@ == k@
            },
        },
{
    if status != String::from_str("success") {
        return Err(ApiError::Authentication { status });
    }
    match key {
        None => Err(ApiError::Protocol),
        Some(k) => if k.as_str().unicode_len() == 0 {
            Err(ApiError::Protocol)
        } else {
            Ok(k)
        },
    }
}

/// What a reply to the key generation request makes of the handshake: the
/// key where the envelope says `success` and carries a key that is not
/// empty; `Authentication` with the status where it says anything else;
/// `Protocol` where the reply does not decode.
pub fn keygen_reply(body: &str) -> (r: Result<String, ApiError>)
    ensures
        match response_status(body@) {
            None => r == Err::<String, ApiError>(ApiError::Protocol),
            Some(status) => if status != "success"@ {
                r matches Err(ApiError::Authentication { status: s }) && s@ == status
            } else {
                match keygen_fields(body@) {
                    None => r == Err::<String, ApiError>(ApiError::Protocol),
                    Some((_, key)) => key.len() > 0 && (r matches Ok(k) && k@ == key),
                }
            },
        },
{
    let envelope = match decode_response(body) {
        Err(e) => {
            return Err(e);
        },
        Ok(v) => v,
    };
    let key = match decode_keygen_response(body) {
        Err(_) => None,
        Ok(v) => Some(v.result.key),
    };
    session_key(envelope.status, key)
}

/// The end of a handshake, given the base URL, the client and what the GET
/// brought back: `Transport` where it failed; otherwise what `keygen_reply`
/// makes of the body, and on success the connection to `url` with the key.
pub fn complete_handshake(
    url: String,
    client: reqwest::blocking::Client,
    reply: Option<String>,
) -> (r: Result<Connection, ApiError>)
    ensures
        reply is None ==> r == Err::<Connection, ApiError>(ApiError::Transport),
        reply matches Some(body) ==> match response_status(body@) {
            None => r == Err::<Connection, ApiError>(ApiError::Protocol),
            Some(status) => if status != "success"@ {
                r matches Err(ApiError::Authentication { status: s }) && s@ == status
            } else {
                match keygen_fields(body@) {
                    None => r == Err::<Connection, ApiError>(ApiError::Protocol),
                    Some((_, key)) => key.len() > 0 && (r matches Ok(c) && c@.api_key == key
                        && c@.url == url@),
                }
            },
        },
{
    let body = match reply {
        None => {
            return Err(ApiError::Transport);
        },
        Some(b) => b,
    };
    match keygen_reply(body.as_str()) {
        Err(e) => Err(e),
        Ok(api_key) => Ok(Connection { url, api_key, client }),
    }
}

impl ConnectionBuilder {
    /// A builder for the device at `url` (with its scheme), with certificate
    /// verification on and no proxy.
    pub fn new(username: String, password: String, url: String) -> (r: ConnectionBuilder)
        ensures
            r@ == (BuilderView {
                username: username@,
                password: password@,
                url: url@,
                proxy: None,
                accept_invalid_certificates: false,
            }),
    {
        ConnectionBuilder { username, password, url, proxy: None, accept_invalid_certificates: false }
    }

    /// Sends requests through `proxy`.
    pub fn proxy(self, proxy: reqwest::Proxy) -> (r: ConnectionBuilder)
        ensures
            r@ == with_proxy(self@, proxy),
    {
        let mut b = self;
        b.proxy = Some(proxy);
        b
    }

    /// Accepts certificates that fail verification, so that the server's
    /// identity goes unchecked. Use with caution.
    pub fn accept_invalid_certificates(self) -> (r: ConnectionBuilder)
        ensures
            r@ == with_invalid_certificates(self@),
    {
        let mut b = self;
        b.accept_invalid_certificates = true;
        b
    }

    /// Whether a proxy is set.
    pub fn has_proxy(&self) -> (r: bool)
        ensures
            r == self@.proxy is Some,
    {
        self.proxy.is_some()
    }

    /// Whether certificates that fail verification are accepted.
    pub fn accepts_invalid_certificates(&self) -> (r: bool)
        ensures
            r == self@.accept_invalid_certificates,
    {
        self.accept_invalid_certificates
    }

    /// The URL of the key generation request; `Configuration` where the user
    /// name or the password is empty or the base URL does not parse.
    pub fn keygen_request_url(&self) -> (r: Result<String, ApiError>)
        ensures
            config_ok(self@) ==> (r matches Ok(u) && Some(u@) == keygen_url(self@)),
            !config_ok(self@) ==> r == Err::<String, ApiError>(ApiError::Configuration),
    {
        if self.username.as_str().unicode_len() == 0 || self.password.as_str().unicode_len() == 0 {
            return Err(ApiError::Configuration);
        }
        let base = self.url.clone().concat("/api");
        let params = vec![
            (String::from_str("user"), self.username.clone()),
            (String::from_str("password"), self.password.clone()),
            (String::from_str(KEYGEN_TYPE_PARAM), String::from_str(KEYGEN_TYPE_VALUE)),
        ];
        proof {
            assert(params.deep_view() =~= keygen_params(self@.username, self@.password));
        }
        match parse_with_params(base.as_str(), &params) {
            Err(_) => Err(ApiError::Configuration),
            Ok(u) => Ok(u),
        }
    }

    /// The handshake. Checks the inputs (`Configuration`, before any
    /// request), builds the HTTP client (`Transport` where it cannot start),
    /// sends one GET of the key generation URL through `transport` and
    /// ends as `complete_handshake` does with what came back. Consumes the
    /// builder. Like reqwest's blocking client, it must not be called from
    /// inside an async runtime, where building the client panics.
    pub fn build<T: Transport>(self, transport: &mut T) -> (r: Result<Connection, ApiError>)
        ensures
            (r == Err::<Connection, ApiError>(ApiError::Configuration)) == !config_ok(self@),
            !config_ok(self@) ==> *final(transport) == *old(transport),
            r matches Ok(c) ==> c@.url == self@.url && c@.api_key.len() > 0 && exists|
                body: Seq<char>,
            | #[trigger] keygen_fields(body) == Some(("success"@, c@.api_key)),
            r matches Err(ApiError::Authentication { status }) ==> status@ != "success"@ && exists|
                body: Seq<char>,
            | #[trigger] response_status(body) == Some(status@),
    {
        let request_url = match self.keygen_request_url() {
            Err(e) => {
                return Err(e);
            },
            Ok(u) => u,
        };
        let mut cb = reqwest::blocking::Client::builder();
        match self.proxy {
            Some(p) => {
                cb = cb.proxy(p);
            },
            None => {},
        }
        cb = cb.danger_accept_invalid_certs(self.accept_invalid_certificates);
        cb = cb.use_rustls_tls();
        let client = match cb.build() {
            Err(_) => {
                return Err(ApiError::Transport);
            },
            Ok(c) => c,
        };
        let reply = transport.get(&client, request_url.as_str());
        complete_handshake(self.url, client, reply)
    }
}

} // verus!
