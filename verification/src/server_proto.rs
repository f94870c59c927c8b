//! The messages of the server side: the liveness probes it exchanges with
//! every peer, the control request it authorizes, and what it pushes and
//! answers. Each payload type carries its wire name and the codec for its
//! own canonical payload object.

use vstd::prelude::*;
use vstd::utf8::{valid_utf8, encode_utf8};
use crate::errors::WireError;
use crate::json::{
    spec_time_obj, spec_parse_time_obj, spec_time_auth_null_obj, spec_time_auth_some_obj,
    spec_ok_error_obj, spec_key_event_obj, spec_parse_key_event_auth_obj, write_time_obj,
    parse_time_obj, write_time_auth_null_obj, write_time_auth_some_obj, write_ok_error_obj,
    write_key_event_obj, parse_key_event_auth_obj,
};
use crate::util::{PayloadName, string_from_utf8};

verus! {

/// One envelope, as the server's dispatcher sees it.
pub struct Message {
    pub name: String,
    pub data: String,
}

/// A liveness probe the server emits periodically to keep a connection
/// warm; the peer answers with a pong.
pub struct Ping {
    pub time: u64,
}

impl PayloadName for Ping {
    open spec fn spec_name() -> Seq<char> {
        "Ping"@
    }

    fn payload_name() -> (r: String) {
        String::from_str("Ping")
    }
}

impl Ping {
    /// The canonical payload object `{"time":<time>}`.
    pub fn to_payload_bytes(&self) -> (r: Vec<u8>)
        ensures
            r@ == spec_time_obj(self.time as int),
    {
        write_time_obj(self.time)
    }

    /// Parses the canonical payload object.
    pub fn parse_payload(b: &[u8]) -> (r: Result<Ping, WireError>)
        ensures
            match spec_parse_time_obj(b@) {
                None => r == Err::<Ping, WireError>(WireError::BadMessage),
                Some(t) => r is Ok && r.unwrap().time == t,
            },
    {
        match parse_time_obj(b) {
            Some(time) => Ok(Ping { time }),
            None => Err(WireError::BadMessage),
        }
    }
}

/// The answer to a ping. The credential slot exists in the schema; under
/// the per-request authorization policy nothing reads it, and a plain
/// answer carries `null` there.
pub struct Pong {
    pub time: u64,
    pub authorization_code: Option<String>,
}

impl PayloadName for Pong {
    open spec fn spec_name() -> Seq<char> {
        "Pong"@
    }

    fn payload_name() -> (r: String) {
        String::from_str("Pong")
    }
}

impl Pong {
    /// The canonical payload object, with the credential slot written as
    /// `null` or as a string.
    pub fn to_payload_bytes(&self) -> (r: Vec<u8>)
        ensures
            self.authorization_code is None ==> r@ == spec_time_auth_null_obj(self.time as int),
            self.authorization_code is Some ==> r@ == spec_time_auth_some_obj(
                self.time as int,
                encode_utf8(self.authorization_code.unwrap()@),
            ),
    {
        match &self.authorization_code {
            None => write_time_auth_null_obj(self.time),
            Some(code) => write_time_auth_some_obj(self.time, code.as_str().as_bytes()),
        }
    }
}

/// A media-key event the server fans out to every other connected peer.
pub struct PushMediaKeyEvent {
    pub action: u32,
    pub code: u32,
    pub token: String,
}

impl PayloadName for PushMediaKeyEvent {
    open spec fn spec_name() -> Seq<char> {
        "PushMediaKeyEvent"@
    }

    fn payload_name() -> (r: String) {
        String::from_str("PushMediaKeyEvent")
    }
}

impl PushMediaKeyEvent {
    /// The canonical payload object `{"action":..,"code":..,"token":..}`.
    pub fn to_payload_bytes(&self) -> (r: Vec<u8>)
        ensures
            r@ == spec_key_event_obj(self.action as int, self.code as int, encode_utf8(
                self.token@,
            )),
    {
        write_key_event_obj(self.action, self.code, self.token.as_str().as_bytes())
    }
}

/// A media-key control request from a peer, credential included: under the
/// per-request policy the server checks `authorization_code` against its
/// configured secret on every request.
pub struct SendControlMediaKeyEventRequest {
    pub action: u32,
    pub code: u32,
    pub token: String,
    pub authorization_code: String,
}

impl PayloadName for SendControlMediaKeyEventRequest {
    open spec fn spec_name() -> Seq<char> {
        "SendControlMediaKeyEventRequest"@
    }

    fn payload_name() -> (r: String) {
        String::from_str("SendControlMediaKeyEventRequest")
    }
}

impl SendControlMediaKeyEventRequest {
    /// Parses the canonical payload object with all four fields in order.
    pub fn parse_payload(b: &[u8]) -> (r: Result<SendControlMediaKeyEventRequest, WireError>)
        ensures
            match spec_parse_key_event_auth_obj(b@) {
                None => r == Err::<SendControlMediaKeyEventRequest, WireError>(
                    WireError::BadMessage,
                ),
                Some((a, c, tk, au)) => {
                    if valid_utf8(tk) && valid_utf8(au) {
                        &&& r is Ok
                        &&& r.unwrap().action == a
                        &&& r.unwrap().code == c
                        &&& encode_utf8(r.unwrap().token@) == tk
                        &&& encode_utf8(r.unwrap().authorization_code@) == au
                    } else {
                        r == Err::<SendControlMediaKeyEventRequest, WireError>(WireError::BadUtf8)
                    }
                },
            },
    {
        match parse_key_event_auth_obj(b) {
            None => Err(WireError::BadMessage),
            Some((action, code, tk, au)) => {
                let token = match string_from_utf8(tk) {
                    Some(s) => s,
                    None => {
                        return Err(WireError::BadUtf8);
                    },
                };
                let authorization_code = match string_from_utf8(au) {
                    Some(s) => s,
                    None => {
                        return Err(WireError::BadUtf8);
                    },
                };
                Ok(SendControlMediaKeyEventRequest { action, code, token, authorization_code })
            },
        }
    }
}

/// The server's answer to a control request: `ok` with an empty error, or
/// a rejection with the reason.
pub struct SendControlMediaKeyEventResponse {
    pub ok: bool,
    pub error: String,
}

impl PayloadName for SendControlMediaKeyEventResponse {
    open spec fn spec_name() -> Seq<char> {
        "SendControlMediaKeyEventResponse"@
    }

    fn payload_name() -> (r: String) {
        String::from_str("SendControlMediaKeyEventResponse")
    }
}

impl SendControlMediaKeyEventResponse {
    /// The canonical payload object `{"ok":<ok>,"error":"<error>"}`.
    pub fn to_payload_bytes(&self) -> (r: Vec<u8>)
        ensures
            r@ == spec_ok_error_obj(self.ok, encode_utf8(self.error@)),
    {
        write_ok_error_obj(self.ok, self.error.as_str().as_bytes())
    }
}

/// The wire name `Ping` as bytes.
pub open spec fn spec_ping_name() -> Seq<u8> {
    seq![0x50u8, 0x69, 0x6e, 0x67]
}

/// Exec mirror of [`spec_ping_name`].
pub fn ping_name() -> (r: Vec<u8>)
    ensures
        r@ == spec_ping_name(),
{
    let r: Vec<u8> = vec![0x50, 0x69, 0x6e, 0x67];
    proof {
        assert(r@ =~= spec_ping_name());
    }
    r
}

/// The wire name `Pong` as bytes.
pub open spec fn spec_pong_name() -> Seq<u8> {
    seq![0x50u8, 0x6f, 0x6e, 0x67]
}

/// Exec mirror of [`spec_pong_name`].
pub fn pong_name() -> (r: Vec<u8>)
    ensures
        r@ == spec_pong_name(),
{
    let r: Vec<u8> = vec![0x50, 0x6f, 0x6e, 0x67];
    proof {
        assert(r@ =~= spec_pong_name());
    }
    r
}

/// The wire name `PushMediaKeyEvent` as bytes.
pub open spec fn spec_push_event_name() -> Seq<u8> {
    seq![0x50u8, 0x75, 0x73, 0x68, 0x4d, 0x65, 0x64, 0x69, 0x61, 0x4b, 0x65, 0x79, 0x45, 0x76, 0x65, 0x6e, 0x74]
}

/// Exec mirror of [`spec_push_event_name`].
pub fn push_event_name() -> (r: Vec<u8>)
    ensures
        r@ == spec_push_event_name(),
{
    let r: Vec<u8> = vec![0x50, 0x75, 0x73, 0x68, 0x4d, 0x65, 0x64, 0x69, 0x61, 0x4b, 0x65, 0x79, 0x45, 0x76, 0x65, 0x6e, 0x74];
    proof {
        assert(r@ =~= spec_push_event_name());
    }
    r
}

/// The wire name `SendControlMediaKeyEventRequest` as bytes.
pub open spec fn spec_control_request_name() -> Seq<u8> {
    seq![0x53u8, 0x65, 0x6e, 0x64, 0x43, 0x6f, 0x6e, 0x74, 0x72, 0x6f, 0x6c, 0x4d, 0x65, 0x64, 0x69, 0x61, 0x4b, 0x65, 0x79, 0x45, 0x76, 0x65, 0x6e, 0x74, 0x52, 0x65, 0x71, 0x75, 0x65, 0x73, 0x74]
}

/// Exec mirror of [`spec_control_request_name`].
pub fn control_request_name() -> (r: Vec<u8>)
    ensures
        r@ == spec_control_request_name(),
{
    let r: Vec<u8> = vec![0x53, 0x65, 0x6e, 0x64, 0x43, 0x6f, 0x6e, 0x74, 0x72, 0x6f, 0x6c, 0x4d, 0x65, 0x64, 0x69, 0x61, 0x4b, 0x65, 0x79, 0x45, 0x76, 0x65, 0x6e, 0x74, 0x52, 0x65, 0x71, 0x75, 0x65, 0x73, 0x74];
    proof {
        assert(r@ =~= spec_control_request_name());
    }
    r
}

/// The wire name `SendControlMediaKeyEventResponse` as bytes.
pub open spec fn spec_control_response_name() -> Seq<u8> {
    seq![0x53u8, 0x65, 0x6e, 0x64, 0x43, 0x6f, 0x6e, 0x74, 0x72, 0x6f, 0x6c, 0x4d, 0x65, 0x64, 0x69, 0x61, 0x4b, 0x65, 0x79, 0x45, 0x76, 0x65, 0x6e, 0x74, 0x52, 0x65, 0x73, 0x70, 0x6f, 0x6e, 0x73, 0x65]
}

/// Exec mirror of [`spec_control_response_name`].
pub fn control_response_name() -> (r: Vec<u8>)
    ensures
        r@ == spec_control_response_name(),
{
    let r: Vec<u8> = vec![0x53, 0x65, 0x6e, 0x64, 0x43, 0x6f, 0x6e, 0x74, 0x72, 0x6f, 0x6c, 0x4d, 0x65, 0x64, 0x69, 0x61, 0x4b, 0x65, 0x79, 0x45, 0x76, 0x65, 0x6e, 0x74, 0x52, 0x65, 0x73, 0x70, 0x6f, 0x6e, 0x73, 0x65];
    proof {
        assert(r@ =~= spec_control_response_name());
    }
    r
}

} // verus!
