use panos_rust_sdk::api::{complete_handshake, ApiError, Connection, ConnectionBuilder, Transport};
use reqwest::Proxy;

struct Canned {
    body: Option<String>,
    calls: usize,
    urls: Vec<String>,
}

impl Canned {
    fn new(body: Option<&str>) -> Canned {
        Canned { body: body.map(|b| b.to_string()), calls: 0, urls: Vec::new() }
    }
}

impl Transport for Canned {
    fn get(&mut self, _client: &reqwest::blocking::Client, url: &str) -> Option<String> {
        self.calls += 1;
        self.urls.push(url.to_string());
        self.body.clone()
    }
}

fn admin() -> ConnectionBuilder {
    ConnectionBuilder::new(
        String::from("admin"),
        String::from("password"),
        String::from("https://127.0.0.1"),
    )
}

#[test]
fn test_connection_builder_set_proxy() {
    let mut connection_builder = ConnectionBuilder::new(
        String::from("admin"),
        String::from("password"),
        String::from("https://127.0.0.1"),
    );
    connection_builder = connection_builder.proxy(
        Proxy::https("https://127.0.0.1").unwrap()
    );
    assert!(connection_builder.has_proxy());
}

#[test]
fn it_connects() {
    let mut transport = Canned::new(Some(
        "<response status='success'><result><key>abcd1234</key></result></response>",
    ));
    let connection = admin().accept_invalid_certificates().build(&mut transport);
    assert!(connection.is_ok())
}

#[test]
fn builder_defaults() {
    let b = admin();
    assert!(!b.has_proxy());
    assert!(!b.accepts_invalid_certificates());
    let d = Connection::builder();
    assert!(!d.has_proxy());
    assert!(!d.accepts_invalid_certificates());
}

#[test]
fn configuration_order_does_not_matter() {
    let a = admin().proxy(Proxy::all("http://10.0.0.1:3128").unwrap()).accept_invalid_certificates();
    let b = admin().accept_invalid_certificates().proxy(Proxy::all("http://10.0.0.1:3128").unwrap());
    assert!(a.has_proxy() && b.has_proxy());
    assert!(a.accepts_invalid_certificates() && b.accepts_invalid_certificates());
}

#[test]
fn successful_handshake_makes_a_connection() {
    let mut transport = Canned::new(Some(
        "<response status = 'success'><result><key>abcd1234</key></result></response>",
    ));
    let c = admin().build(&mut transport).unwrap();
    assert_eq!(c.api_key(), "abcd1234");
    assert_eq!(c.url(), "https://127.0.0.1");
    assert_eq!(transport.calls, 1);
    assert_eq!(
        transport.urls,
        vec!["https://127.0.0.1/api?user=admin&password=password&type=keygen".to_string()]
    );
}

#[test]
fn query_parameters_are_encoded() {
    let b = ConnectionBuilder::new(
        String::from("ad min"),
        String::from("p&ss=1"),
        String::from("https://fw.example.com"),
    );
    assert_eq!(
        b.keygen_request_url(),
        Ok("https://fw.example.com/api?user=ad+min&password=p%26ss%3D1&type=keygen".to_string())
    );
}

#[test]
fn error_status_is_an_authentication_error() {
    for body in [
        "<response status='error'><msg><line>Invalid Credential</line></msg></response>",
        "<response status='error'><result><key>abcd1234</key></result></response>",
    ] {
        let mut transport = Canned::new(Some(body));
        let r = admin().build(&mut transport);
        assert_eq!(r.err(), Some(ApiError::Authentication { status: "error".to_string() }));
        assert_eq!(transport.calls, 1);
    }
}

#[test]
fn undecodable_reply_is_a_protocol_error() {
    let mut transport = Canned::new(Some("<html>Bad gateway"));
    assert_eq!(admin().build(&mut transport).err(), Some(ApiError::Protocol));
}

#[test]
fn unreachable_device_is_a_transport_error() {
    let mut transport = Canned::new(None);
    assert_eq!(admin().build(&mut transport).err(), Some(ApiError::Transport));
    assert_eq!(transport.calls, 1);
}

#[test]
fn empty_username_fails_before_any_request() {
    let mut transport = Canned::new(Some(
        "<response status='success'><result><key>abcd1234</key></result></response>",
    ));
    let b = ConnectionBuilder::new(String::new(), String::from("password"), String::from("https://127.0.0.1"));
    assert_eq!(b.build(&mut transport).err(), Some(ApiError::Configuration));
    assert_eq!(transport.calls, 0);
}

#[test]
fn empty_password_fails_before_any_request() {
    let mut transport = Canned::new(None);
    let b = ConnectionBuilder::new(String::from("admin"), String::new(), String::from("https://127.0.0.1"));
    assert_eq!(b.build(&mut transport).err(), Some(ApiError::Configuration));
    assert_eq!(transport.calls, 0);
}

#[test]
fn malformed_base_url_fails_before_any_request() {
    for url in ["127.0.0.1", "not a url", "", "https://[::1"] {
        let mut transport = Canned::new(None);
        let b = ConnectionBuilder::new(String::from("admin"), String::from("password"), String::from(url));
        assert_eq!(b.build(&mut transport).err(), Some(ApiError::Configuration));
        assert_eq!(transport.calls, 0);
    }
}

#[test]
fn complete_handshake_outcomes() {
    let client = || reqwest::blocking::Client::builder().build().unwrap();
    let url = || "https://127.0.0.1".to_string();
    assert_eq!(complete_handshake(url(), client(), None).err(), Some(ApiError::Transport));
    assert_eq!(
        complete_handshake(url(), client(), Some("not xml".to_string())).err(),
        Some(ApiError::Protocol)
    );
    assert_eq!(
        complete_handshake(url(), client(), Some("<response status='error'/>".to_string())).err(),
        Some(ApiError::Authentication { status: "error".to_string() })
    );
    let c = complete_handshake(
        url(),
        client(),
        Some("<response status='success'><result><key>k</key></result></response>".to_string()),
    )
    .unwrap();
    assert_eq!((c.url(), c.api_key()), ("https://127.0.0.1", "k"));
}
