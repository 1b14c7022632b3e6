//! The edge to the transport: what a WebSocket message carries for the
//! protocol, and the address of the server as the transport wants it.
//!
//! The messages and addresses of the transport are opaque here. What the
//! contracts say of them, they say through named results: the text of a
//! message, the verdict of the address parser, the host and the port of
//! an address.

use crate::network::{classify, frame_of, Frame, FrameView};
use crate::session::{server_address, server_url};
use vstd::prelude::*;

verus! {

/// The message type of the WebSocket library. Nothing is known of a value
/// of it but the text that it carries ([`message_text_of`]).
#[verifier::external_type_specification]
#[verifier::external_body]
pub struct ExMessage(tungstenite::Message);

/// The parsed address type of the URL library. Nothing is known of a value
/// of it but the host and the port that it names ([`host_of`], [`port_of`]).
#[verifier::external_type_specification]
#[verifier::external_body]
pub struct ExUrl(url::Url);

/// The error type of the URL parser.
#[verifier::external_type_specification]
#[verifier::external_body]
pub struct ExParseError(url::ParseError);

/// The characters of the text that was found in a message, if any.
pub open spec fn text_view(text: Option<String>) -> Option<Seq<char>> {
    match text {
        Some(text) => Some(text@),
        None => None,
    }
}

/// The text that a `tungstenite::Message` carries: the characters of the
/// string of a `Text` message, and nothing for every other variant. It
/// depends on the message alone.
pub uninterp spec fn message_text_of(msg: tungstenite::Message) -> Option<Seq<char>>;

/// Tells the variants of `tungstenite::Message` apart: hands out the
/// string of a `Text` message and nothing for every other variant. The
/// result is the text that the message carries.
#[verifier::external_body]
fn message_text(msg: tungstenite::Message) -> (text: Option<String>)
    ensures
        text_view(text) == message_text_of(msg),
{
    match msg {
        tungstenite::Message::Text(text) => Some(text),
        _ => None,
    }
}

/// What `url::Url::parse` makes of `text`: the parsed address, or the
/// reason for which the parser rejects the text. The parser reads nothing
/// but its argument, so the same text always gives the same result.
pub uninterp spec fn parsed_address(text: Seq<char>) -> Result<url::Url, url::ParseError>;

/// Calls `url::Url::parse` on `text`. The result is what the parser makes
/// of that text; which texts it accepts is its own affair.
#[verifier::external_body]
fn parse_url(text: &str) -> (parsed: Result<url::Url, url::ParseError>)
    ensures
        parsed == parsed_address(text@),
{
    url::Url::parse(text)
}

/// What `url::Url::host_str` hands out for `address`: the characters of
/// the host that the address names, if it names one. It depends on the
/// address alone.
pub uninterp spec fn host_of(address: url::Url) -> Option<Seq<char>>;

/// What `url::Url::port` hands out for `address`: the port that the
/// address names, if it names one. It depends on the address alone.
pub uninterp spec fn port_of(address: url::Url) -> Option<u16>;

/// Calls `url::Url::host_str` and copies the host, if the address has
/// one. The result is the host that the address names.
#[verifier::external_body]
fn url_host(address: &url::Url) -> (host: Option<String>)
    ensures
        text_view(host) == host_of(*address),
{
    address.host_str().map(|host| host.to_string())
}

/// Calls `url::Url::port`. The result is the port that the address
/// names, if it names one.
#[verifier::external_body]
fn url_port(address: &url::Url) -> (port: Option<u16>)
    ensures
        port == port_of(*address),
{
    address.port()
}

/// The frame that a message with the given text is for a peer in the
/// role `mode`. A message without text is unknown to the protocol.
pub open spec fn frame_of_text(mode: Seq<char>, text: Option<Seq<char>>) -> FrameView {
    match text {
        Some(text) => frame_of(mode, text),
        None => FrameView::Unknown,
    }
}

/// Classifies what a message carries, given the text that was found in it.
pub fn classify_text(mode: &str, text: Option<String>) -> (frame: Frame)
    ensures
        frame@ == frame_of_text(mode@, text_view(text)),
{
    match text {
        Some(text) => classify(mode, text.as_str()),
        None => Frame::Unknown,
    }
}

/// The frame that an incoming WebSocket message is for a peer in the role
/// `mode`. Only text messages carry frames; every other message is
/// unknown to the protocol. A text message is classified by its text, as
/// [`classify_text`] says.
pub fn read_message(mode: &str, msg: tungstenite::Message) -> (frame: Frame)
    ensures
        frame@ == frame_of_text(mode@, message_text_of(msg)),
{
    classify_text(mode, message_text(msg))
}

/// Why a session could not be set up.
#[derive(Clone, Copy, Debug, PartialEq, Eq, Structural)]
pub enum SessionError {
    /// The address of the server is not a valid address.
    BadAddress,
    /// The address of the server names no host or no port.
    NoEndpoint,
}

/// What a session makes of the parser's verdict on its address: the
/// parsed address, or [`SessionError::BadAddress`] for every rejection.
pub open spec fn accepted(parsed: Result<url::Url, url::ParseError>) -> Result<url::Url, SessionError> {
    match parsed {
        Ok(address) => Ok(address),
        Err(_) => Err(SessionError::BadAddress),
    }
}

/// Turns the parser's verdict on an address into that of the session.
pub fn accept_address(parsed: Result<url::Url, url::ParseError>) -> (address: Result<
    url::Url,
    SessionError,
>)
    ensures
        address == accepted(parsed),
{
    match parsed {
        Ok(address) => Ok(address),
        Err(_) => Err(SessionError::BadAddress),
    }
}

/// The address of the server of a session, parsed for the transport: what
/// the parser makes of the address built from `host`, `port` and `name`
/// ([`server_address`]). Fails with [`SessionError::BadAddress`] exactly
/// if the parser rejects that address.
pub fn session_url(host: &str, port: u16, name: &str) -> (parsed: Result<url::Url, SessionError>)
    ensures
        parsed == accepted(parsed_address(server_address(host@, port, name@))),
{
    let text = server_url(host, port, name);
    accept_address(parse_url(text.as_str()))
}

/// The endpoint that a host and a port make: both are needed.
pub open spec fn endpoint_of(host: Option<String>, port: Option<u16>) -> Result<
    (String, u16),
    SessionError,
> {
    match (host, port) {
        (Some(host), Some(port)) => Ok((host, port)),
        _ => Err(SessionError::NoEndpoint),
    }
}

/// Puts the host and the port of an address together. Fails with
/// [`SessionError::NoEndpoint`] exactly if one of them is missing.
pub fn make_endpoint(host: Option<String>, port: Option<u16>) -> (endpoint: Result<
    (String, u16),
    SessionError,
>)
    ensures
        endpoint == endpoint_of(host, port),
{
    match host {
        Some(host) => match port {
            Some(port) => Ok((host, port)),
            None => Err(SessionError::NoEndpoint),
        },
        None => Err(SessionError::NoEndpoint),
    }
}

/// The host and the port to which the stream of a session connects: the
/// two that the address names. Fails with [`SessionError::NoEndpoint`]
/// exactly if the address lacks either.
pub fn stream_endpoint(address: &url::Url) -> (endpoint: Result<(String, u16), SessionError>)
    ensures
        match (host_of(*address), port_of(*address)) {
            (Some(host), Some(port)) => endpoint matches Ok(e) && e.0@ == host && e.1 == port,
            _ => endpoint == Err::<(String, u16), SessionError>(SessionError::NoEndpoint),
        },
{
    make_endpoint(url_host(address), url_port(address))
}

} // verus!
