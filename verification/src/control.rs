//! The client core: the connection state machine, the routing of messages
//! arriving from the user interface, and the dispatch of frames arriving
//! from the server. The embedding program owns the socket, the timers and
//! the channels; it feeds events in and performs the actions decided here.

use vstd::prelude::*;
use crate::control_proto::{
    Message, spec_ping_name, ping_name, spec_pong_name, pong_name, spec_connect_request_name,
    connect_request_name, spec_addr_key,
};
use crate::envelope::{
    spec_parse_envelope, parse_envelope_bytes, spec_envelope, spec_payload_frame,
    encode_payload_frame, lemma_small_envelope_fits,
};
use crate::errors::WireError;
use crate::frame::FRAME_MAX_LEN;
use crate::json::{
    spec_parse_time_obj, parse_time_obj, spec_time_obj, write_time_obj, lemma_dec_u64_len,
    spec_parse_str_field_obj, parse_str_field_obj, bytes_eq,
};
use crate::util::string_from_utf8;
use vstd::utf8::{valid_utf8, encode_utf8};

verus! {

/// The client's connection status. Exactly one holds at a time, and only
/// one live connection pump may exist per `Connected` epoch.
#[derive(Clone, Copy, Debug, PartialEq, Eq, Structural)]
pub enum ControlServiceStatus {
    Connected,
    Connecting,
    Disconnected,
}

impl ControlServiceStatus {
    /// The textual form a status query returns.
    pub fn status_text(&self) -> (r: String)
        ensures
            *self == ControlServiceStatus::Connected ==> r@ == "Connected"@,
            *self == ControlServiceStatus::Connecting ==> r@ == "Connecting"@,
            *self == ControlServiceStatus::Disconnected ==> r@ == "Disconnected"@,
    {
        match self {
            ControlServiceStatus::Connected => String::from_str("Connected"),
            ControlServiceStatus::Connecting => String::from_str("Connecting"),
            ControlServiceStatus::Disconnected => String::from_str("Disconnected"),
        }
    }
}

/// What the state machine decides when the user interface asks to connect.
#[derive(Clone, Copy, Debug, PartialEq, Eq, Structural)]
pub enum ConnectDecision {
    /// Already connected: answer the interface with a trivial success.
    ReplyAlreadyConnected,
    /// A connect attempt is already in flight: ignore the request.
    IgnoreInProgress,
    /// Begin an asynchronous connect; the status is now `Connecting`.
    StartConnect,
}

/// The client connection state machine. One instance exists per client
/// process; the embedding program drives it with connect requests, connect
/// outcomes, and the end of the connection pump.
pub struct ClientCore {
    pub status: ControlServiceStatus,
}

impl ClientCore {
    /// A fresh client starts disconnected.
    pub fn new() -> (r: ClientCore)
        ensures
            r.status == ControlServiceStatus::Disconnected,
    {
        ClientCore { status: ControlServiceStatus::Disconnected }
    }

    /// A connect request from the user interface: answer success trivially
    /// when already connected, ignore a concurrent attempt, and otherwise
    /// move to `Connecting` and start the one asynchronous connect.
    pub fn on_connect_request(&mut self) -> (d: ConnectDecision)
        ensures
            old(self).status == ControlServiceStatus::Connected ==> d
                == ConnectDecision::ReplyAlreadyConnected && final(self).status
                == ControlServiceStatus::Connected,
            old(self).status == ControlServiceStatus::Connecting ==> d
                == ConnectDecision::IgnoreInProgress && final(self).status
                == ControlServiceStatus::Connecting,
            old(self).status == ControlServiceStatus::Disconnected ==> d
                == ConnectDecision::StartConnect && final(self).status
                == ControlServiceStatus::Connecting,
    {
        match self.status {
            ControlServiceStatus::Connected => ConnectDecision::ReplyAlreadyConnected,
            ControlServiceStatus::Connecting => ConnectDecision::IgnoreInProgress,
            ControlServiceStatus::Disconnected => {
                self.status = ControlServiceStatus::Connecting;
                ConnectDecision::StartConnect
            },
        }
    }

    /// The asynchronous connect finished: `Connected` on success (the pump
    /// is spawned and the command channel established), `Disconnected` on
    /// failure (no pump exists).
    pub fn on_connect_outcome(&mut self, ok: bool)
        requires
            old(self).status == ControlServiceStatus::Connecting,
        ensures
            ok ==> final(self).status == ControlServiceStatus::Connected,
            !ok ==> final(self).status == ControlServiceStatus::Disconnected,
    {
        if ok {
            self.status = ControlServiceStatus::Connected;
        } else {
            self.status = ControlServiceStatus::Disconnected;
        }
    }

    /// The connection pump ended, for whatever reason: the client is
    /// disconnected and the command channel is dropped.
    pub fn on_pump_finished(&mut self)
        ensures
            final(self).status == ControlServiceStatus::Disconnected,
    {
        self.status = ControlServiceStatus::Disconnected;
    }
}

/// Where one message from the user interface must go.
pub enum UiRoute {
    /// A connect request: begin the connect flow toward this address.
    Connect { addr: String },
    /// Anything else is forwarded verbatim to the server as one frame
    /// (silently dropped by the caller when no connection exists).
    Forward { frame: Vec<u8> },
}

/// Routes one envelope arriving from the user interface: a
/// `ConnectRequest` starts the connect flow; every other message is
/// re-framed for the server.
pub fn route_ui_message(input: &str) -> (r: Result<UiRoute, WireError>)
    ensures
        match spec_parse_envelope(encode_utf8(input@)) {
            None => r == Err::<UiRoute, WireError>(WireError::BadMessage),
            Some((nb, db)) => {
                if nb == spec_connect_request_name() {
                    match spec_parse_str_field_obj(spec_addr_key(), db) {
                        None => r == Err::<UiRoute, WireError>(WireError::BadMessage),
                        Some(ab) => {
                            if valid_utf8(ab) {
                                r is Ok && (r.unwrap() matches UiRoute::Connect { addr }
                                    && encode_utf8(addr@) == ab)
                            } else {
                                r == Err::<UiRoute, WireError>(WireError::BadUtf8)
                            }
                        },
                    }
                } else {
                    if spec_envelope(nb, db).len() < FRAME_MAX_LEN {
                        r is Ok && (r.unwrap() matches UiRoute::Forward { frame } && frame@
                            == spec_payload_frame(nb, db))
                    } else {
                        r == Err::<UiRoute, WireError>(WireError::FrameTooLarge)
                    }
                }
            },
        },
{
    let (nb, db) = match parse_envelope_bytes(input.as_bytes()) {
        Ok(p) => p,
        Err(e) => {
            return Err(e);
        },
    };
    let cr = connect_request_name();
    if bytes_eq(nb.as_slice(), cr.as_slice()) {
        let key: Vec<u8> = vec![0x61, 0x64, 0x64, 0x72];
        proof {
            assert(key@ =~= spec_addr_key());
        }
        let ab = match parse_str_field_obj(key.as_slice(), db.as_slice()) {
            Some(v) => v,
            None => {
                return Err(WireError::BadMessage);
            },
        };
        match string_from_utf8(ab) {
            Some(addr) => Ok(UiRoute::Connect { addr }),
            None => Err(WireError::BadUtf8),
        }
    } else {
        match encode_payload_frame(nb.as_slice(), db.as_slice()) {
            Ok(frame) => Ok(UiRoute::Forward { frame }),
            Err(e) => Err(e),
        }
    }
}

/// What the client does with one frame received from the server.
pub enum ClientAction {
    /// The frame was a ping: answer the server with this pong frame,
    /// through the connection's single serialized write path.
    ReplyPong { frame: Vec<u8> },
    /// Anything else is handed to the user interface unchanged.
    Forward { message: Message },
}

/// Dispatches one frame received from the server: a ping is answered with
/// a pong echoing its timestamp, and every other message is forwarded to
/// the user interface. Any malformed frame is a fatal connection error.
pub fn client_handle_frame(payload: &[u8]) -> (r: Result<ClientAction, WireError>)
    ensures
        match spec_parse_envelope(payload@) {
            None => r == Err::<ClientAction, WireError>(WireError::BadMessage),
            Some((nb, db)) => {
                if nb == spec_ping_name() {
                    match spec_parse_time_obj(db) {
                        None => r == Err::<ClientAction, WireError>(WireError::BadMessage),
                        Some(t) => r is Ok && (r.unwrap() matches ClientAction::ReplyPong { frame }
                            && frame@ == spec_payload_frame(spec_pong_name(), spec_time_obj(t))),
                    }
                } else {
                    if valid_utf8(nb) && valid_utf8(db) {
                        r is Ok && (r.unwrap() matches ClientAction::Forward { message }
                            && encode_utf8(message.name@) == nb && encode_utf8(message.data@)
                            == db)
                    } else {
                        r == Err::<ClientAction, WireError>(WireError::BadUtf8)
                    }
                }
            },
        },
{
    let (nb, db) = match parse_envelope_bytes(payload) {
        Ok(p) => p,
        Err(e) => {
            return Err(e);
        },
    };
    let pn = ping_name();
    if bytes_eq(nb.as_slice(), pn.as_slice()) {
        let t = match parse_time_obj(db.as_slice()) {
            Some(t) => t,
            None => {
                return Err(WireError::BadMessage);
            },
        };
        let reply_payload = write_time_obj(t);
        let reply_name = pong_name();
        proof {
            lemma_dec_u64_len(t as int);
            lemma_small_envelope_fits(reply_name@, reply_payload@);
        }
        match encode_payload_frame(reply_name.as_slice(), reply_payload.as_slice()) {
            Ok(frame) => Ok(ClientAction::ReplyPong { frame }),
            Err(_) => vstd::pervasive::unreached(),
        }
    } else {
        let name = match string_from_utf8(nb) {
            Some(s) => s,
            None => {
                return Err(WireError::BadUtf8);
            },
        };
        let data = match string_from_utf8(db) {
            Some(s) => s,
            None => {
                return Err(WireError::BadUtf8);
            },
        };
        Ok(ClientAction::Forward { message: Message { name, data } })
    }
}

} // verus!
