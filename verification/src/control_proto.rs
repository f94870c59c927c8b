//! The messages of the client ("control") side: what rides between the
//! user-interface shell and the client core, and what the client itself
//! sends to the server. Each payload type carries its wire name and the
//! codec for its own canonical payload object.

use vstd::prelude::*;
use vstd::utf8::{valid_utf8, encode_utf8};
use crate::errors::WireError;
use crate::json::{
    spec_time_obj, spec_parse_time_obj, spec_str_field_obj, spec_parse_str_field_obj,
    spec_ok_error_obj, spec_key_event_auth_obj, write_time_obj, parse_time_obj,
    write_str_field_obj, parse_str_field_obj, write_ok_error_obj, write_key_event_auth_obj,
};
use crate::util::{PayloadName, string_from_utf8};

verus! {

/// One envelope, as the dispatcher sees it: the payload's wire name and
/// the payload's own encoding, carried opaquely.
pub struct Message {
    pub name: String,
    pub data: String,
}

/// The bytes of the key `addr`.
pub open spec fn spec_addr_key() -> Seq<u8> {
    seq![0x61u8, 0x64, 0x64, 0x72]
}

/// The bytes of the key `reason`.
pub open spec fn spec_reason_key() -> Seq<u8> {
    seq![0x72u8, 0x65, 0x61, 0x73, 0x6f, 0x6e]
}

/// The user interface asks the client to connect to `addr` (host:port).
pub struct ConnectRequest {
    pub addr: String,
}

impl PayloadName for ConnectRequest {
    open spec fn spec_name() -> Seq<char> {
        "ConnectRequest"@
    }

    fn payload_name() -> (r: String) {
        String::from_str("ConnectRequest")
    }
}

impl ConnectRequest {
    /// The canonical payload object `{"addr":"<addr>"}`.
    pub fn to_payload_bytes(&self) -> (r: Vec<u8>)
        ensures
            r@ == spec_str_field_obj(spec_addr_key(), encode_utf8(self.addr@)),
    {
        let key: Vec<u8> = vec![0x61, 0x64, 0x64, 0x72];
        proof {
            assert(key@ =~= spec_addr_key());
        }
        write_str_field_obj(key.as_slice(), self.addr.as_str().as_bytes())
    }

    /// Parses the canonical payload object.
    pub fn parse_payload(b: &[u8]) -> (r: Result<ConnectRequest, WireError>)
        ensures
            match spec_parse_str_field_obj(spec_addr_key(), b@) {
                None => r == Err::<ConnectRequest, WireError>(WireError::BadMessage),
                Some(ab) => {
                    if valid_utf8(ab) {
                        r is Ok && encode_utf8(r.unwrap().addr@) == ab
                    } else {
                        r == Err::<ConnectRequest, WireError>(WireError::BadUtf8)
                    }
                },
            },
    {
        let key: Vec<u8> = vec![0x61, 0x64, 0x64, 0x72];
        proof {
            assert(key@ =~= spec_addr_key());
        }
        match parse_str_field_obj(key.as_slice(), b) {
            None => Err(WireError::BadMessage),
            Some(ab) => match string_from_utf8(ab) {
                Some(addr) => Ok(ConnectRequest { addr }),
                None => Err(WireError::BadUtf8),
            },
        }
    }
}

/// The client's answer to a connect request.
pub struct ConnectResponse {
    pub ok: bool,
    pub error: String,
}

impl PayloadName for ConnectResponse {
    open spec fn spec_name() -> Seq<char> {
        "ConnectResponse"@
    }

    fn payload_name() -> (r: String) {
        String::from_str("ConnectResponse")
    }
}

impl ConnectResponse {
    /// The canonical payload object `{"ok":<ok>,"error":"<error>"}`.
    pub fn to_payload_bytes(&self) -> (r: Vec<u8>)
        ensures
            r@ == spec_ok_error_obj(self.ok, encode_utf8(self.error@)),
    {
        write_ok_error_obj(self.ok, self.error.as_str().as_bytes())
    }
}

/// Tells the user interface that the connection ended; an empty reason
/// signals a clean, requested shutdown.
pub struct DisconnectNtf {
    pub reason: String,
}

impl PayloadName for DisconnectNtf {
    open spec fn spec_name() -> Seq<char> {
        "DisconnectNtf"@
    }

    fn payload_name() -> (r: String) {
        String::from_str("DisconnectNtf")
    }
}

impl DisconnectNtf {
    /// The canonical payload object `{"reason":"<reason>"}`.
    pub fn to_payload_bytes(&self) -> (r: Vec<u8>)
        ensures
            r@ == spec_str_field_obj(spec_reason_key(), encode_utf8(self.reason@)),
    {
        let key: Vec<u8> = vec![0x72, 0x65, 0x61, 0x73, 0x6f, 0x6e];
        proof {
            assert(key@ =~= spec_reason_key());
        }
        write_str_field_obj(key.as_slice(), self.reason.as_str().as_bytes())
    }
}

/// A liveness probe; the receiver answers with a pong carrying the same
/// timestamp.
pub struct Ping {
    pub time: u64,
}

impl PayloadName for Ping {
    open spec fn spec_name() -> Seq<char> {
        "Ping"@
    }

    fn payload_name() -> (r: String) {
        String::from_str("Ping")
    }
}

impl Ping {
    /// The canonical payload object `{"time":<time>}`.
    pub fn to_payload_bytes(&self) -> (r: Vec<u8>)
        ensures
            r@ == spec_time_obj(self.time as int),
    {
        write_time_obj(self.time)
    }

    /// Parses the canonical payload object.
    pub fn parse_payload(b: &[u8]) -> (r: Result<Ping, WireError>)
        ensures
            match spec_parse_time_obj(b@) {
                None => r == Err::<Ping, WireError>(WireError::BadMessage),
                Some(t) => r is Ok && r.unwrap().time == t,
            },
    {
        match parse_time_obj(b) {
            Some(time) => Ok(Ping { time }),
            None => Err(WireError::BadMessage),
        }
    }
}

/// The answer to a ping, echoing its timestamp.
pub struct Pong {
    pub time: u64,
}

impl PayloadName for Pong {
    open spec fn spec_name() -> Seq<char> {
        "Pong"@
    }

    fn payload_name() -> (r: String) {
        String::from_str("Pong")
    }
}

impl Pong {
    /// The canonical payload object `{"time":<time>}`.
    pub fn to_payload_bytes(&self) -> (r: Vec<u8>)
        ensures
            r@ == spec_time_obj(self.time as int),
    {
        write_time_obj(self.time)
    }
}

/// A media-key control event the user interface sends toward the server,
/// carrying the credential checked on every request.
pub struct SendControlMediaKeyEventRequest {
    pub action: u32,
    pub code: u32,
    pub token: String,
    pub authorization_code: String,
}

impl PayloadName for SendControlMediaKeyEventRequest {
    open spec fn spec_name() -> Seq<char> {
        "SendControlMediaKeyEventRequest"@
    }

    fn payload_name() -> (r: String) {
        String::from_str("SendControlMediaKeyEventRequest")
    }
}

impl SendControlMediaKeyEventRequest {
    /// The canonical payload object with all four fields in order.
    pub fn to_payload_bytes(&self) -> (r: Vec<u8>)
        ensures
            r@ == spec_key_event_auth_obj(
                self.action as int,
                self.code as int,
                encode_utf8(self.token@),
                encode_utf8(self.authorization_code@),
            ),
    {
        write_key_event_auth_obj(
            self.action,
            self.code,
            self.token.as_str().as_bytes(),
            self.authorization_code.as_str().as_bytes(),
        )
    }
}

/// The wire name `Ping` as bytes.
pub open spec fn spec_ping_name() -> Seq<u8> {
    seq![0x50u8, 0x69, 0x6e, 0x67]
}

/// Exec mirror of [`spec_ping_name`].
pub fn ping_name() -> (r: Vec<u8>)
    ensures
        r@ == spec_ping_name(),
{
    let r: Vec<u8> = vec![0x50, 0x69, 0x6e, 0x67];
    proof {
        assert(r@ =~= spec_ping_name());
    }
    r
}

/// The wire name `Pong` as bytes.
pub open spec fn spec_pong_name() -> Seq<u8> {
    seq![0x50u8, 0x6f, 0x6e, 0x67]
}

/// Exec mirror of [`spec_pong_name`].
pub fn pong_name() -> (r: Vec<u8>)
    ensures
        r@ == spec_pong_name(),
{
    let r: Vec<u8> = vec![0x50, 0x6f, 0x6e, 0x67];
    proof {
        assert(r@ =~= spec_pong_name());
    }
    r
}

/// The wire name `ConnectRequest` as bytes.
pub open spec fn spec_connect_request_name() -> Seq<u8> {
    seq![0x43u8, 0x6f, 0x6e, 0x6e, 0x65, 0x63, 0x74, 0x52, 0x65, 0x71, 0x75, 0x65, 0x73, 0x74]
}

/// Exec mirror of [`spec_connect_request_name`].
pub fn connect_request_name() -> (r: Vec<u8>)
    ensures
        r@ == spec_connect_request_name(),
{
    let r: Vec<u8> = vec![0x43, 0x6f, 0x6e, 0x6e, 0x65, 0x63, 0x74, 0x52, 0x65, 0x71, 0x75, 0x65, 0x73, 0x74];
    proof {
        assert(r@ =~= spec_connect_request_name());
    }
    r
}

} // verus!
