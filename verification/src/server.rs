//! The server: its configuration, the session registry, and the
//! authorization-gated broadcast relay.
//!
//! The registry is an explicit service object: the embedding program holds
//! it behind one lock, passes it to the per-session handlers, and performs
//! the channel sends the relay decides on. The relay itself never mutates
//! the registry; it only reads a snapshot of who is connected.

use vstd::prelude::*;
use vstd::utf8::{valid_utf8, encode_utf8};
use vstd::string::StringSliceAdditionalSpecFns;
use crate::envelope::{
    spec_parse_envelope, parse_envelope_bytes, spec_envelope, spec_payload_frame,
    encode_payload_frame, lemma_small_envelope_fits, lemma_envelope_round_trip,
    lemma_envelope_ascii,
};
use crate::errors::WireError;
use crate::frame::FRAME_MAX_LEN;
use crate::json::{
    spec_parse_time_obj, parse_time_obj, spec_time_auth_null_obj, write_time_auth_null_obj,
    spec_ok_error_obj, write_ok_error_obj, spec_key_event_obj, write_key_event_obj,
    spec_parse_key_event_auth_obj, parse_key_event_auth_obj, spec_key_event_auth_obj, bytes_eq,
    lemma_dec_u64_len, all_ascii, lemma_ascii_valid_utf8, lemma_key_event_auth_obj_ascii,
    lemma_key_event_auth_round_trip,
};
use crate::server_proto::{
    spec_ping_name, ping_name, spec_pong_name, pong_name, spec_push_event_name, push_event_name,
    spec_control_request_name, control_request_name, spec_control_response_name,
    control_response_name,
};
use crate::util::string_from_utf8;
use vstd::slice::slice_to_vec;

verus! {

/// The server's configuration, supplied externally and read-only to the
/// core: where to listen, and the credential every control request is
/// checked against.
pub struct Opts {
    pub listen_addr: String,
    pub authorization_code: String,
}

impl Default for Opts {
    /// The defaults the command line offers.
    fn default() -> (r: Opts)
        ensures
            r.listen_addr@ == "0.0.0.0:8000"@,
            r.authorization_code@ == "abc123"@,
    {
        Opts {
            listen_addr: String::from_str("0.0.0.0:8000"),
            authorization_code: String::from_str("abc123"),
        }
    }
}

/// The session registry: which session identifiers are connected, in
/// insertion order. The peer handle belonging to each identifier (its
/// outbound channel and watchdog task) lives with the embedding program;
/// the registry is the single authority on who is connected.
pub struct Registry {
    sessions: Vec<u32>,
}

impl Registry {
    /// The registered session identifiers, oldest first.
    pub closed spec fn ids(&self) -> Seq<u32> {
        self.sessions@
    }

    /// No session identifier is ever registered twice.
    pub open spec fn wf(&self) -> bool {
        forall|i: int, j: int|
            0 <= i < j < self.ids().len() ==> self.ids()[i] != self.ids()[j]
    }

    /// An empty registry.
    pub fn new() -> (r: Registry)
        ensures
            r.wf(),
            r.ids() == Seq::<u32>::empty(),
    {
        let r = Registry { sessions: Vec::new() };
        proof {
            assert(r.ids() =~= Seq::<u32>::empty());
        }
        r
    }

    /// How many sessions are registered.
    pub fn len(&self) -> (r: usize)
        ensures
            r == self.ids().len(),
    {
        self.sessions.len()
    }

    /// Is this session registered?
    pub fn contains_session(&self, id: u32) -> (r: bool)
        ensures
            r == self.ids().contains(id),
    {
        let mut i: usize = 0;
        while i < self.sessions.len()
            invariant
                i <= self.ids().len(),
                forall|k: int| 0 <= k < i ==> self.ids()[k] != id,
        decreases self.ids().len() - i,
        {
            if self.sessions[i] == id {
                return true;
            }
            i = i + 1;
        }
        false
    }

    /// On session start: register the identifier. Registering one that is
    /// already present leaves the registry unchanged, as re-inserting a
    /// key into a map does.
    pub fn insert(&mut self, id: u32)
        requires
            old(self).wf(),
        ensures
            final(self).wf(),
            final(self).ids().contains(id),
            old(self).ids().contains(id) ==> final(self).ids() == old(self).ids(),
            !old(self).ids().contains(id) ==> final(self).ids() == old(self).ids().push(id),
    {
        if !self.contains_session(id) {
            self.sessions.push(id);
            proof {
                assert(self.ids().contains(id)) by {
                    assert(self.ids()[self.ids().len() - 1] == id);
                }
            }
        }
    }

    /// On session close: remove the identifier. Afterwards the entry is
    /// absent, every other session is untouched, and the order of the
    /// remaining sessions is preserved.
    pub fn remove(&mut self, id: u32)
        requires
            old(self).wf(),
        ensures
            final(self).wf(),
            !final(self).ids().contains(id),
            forall|x: u32|
                x != id ==> final(self).ids().contains(x) == old(self).ids().contains(x),
            old(self).ids().contains(id) ==> exists|k: int|
                0 <= k < old(self).ids().len() && old(self).ids()[k] == id && final(self).ids()
                    == old(self).ids().remove(k),
            !old(self).ids().contains(id) ==> final(self).ids() == old(self).ids(),
    {
        let ghost ids0 = self.ids();
        let mut i: usize = 0;
        while i < self.sessions.len()
            invariant
                self.ids() == ids0,
                old(self).wf(),  // carried so the quantifier facts stay available
                ids0 == old(self).ids(),
                i <= ids0.len(),
                forall|k: int| 0 <= k < i ==> ids0[k] != id,
            decreases ids0.len() - i,
        {
            if self.sessions[i] == id {
                let ghost k = i as int;
                self.sessions.remove(i);
                proof {
                    let ids1 = self.ids();
                    assert(ids1 == ids0.remove(k));
                    ids0.remove_ensures(k);
                    assert forall|p: int| 0 <= p < ids1.len() implies ids1[p] != id by {
                        if p < k {
                            assert(ids1[p] == ids0[p]);
                        } else {
                            assert(ids1[p] == ids0[p + 1]);
                        }
                    }
                    assert(!ids1.contains(id)) by {
                        if ids1.contains(id) {
                            let p = choose|p: int| 0 <= p < ids1.len() && ids1[p] == id;
                            assert(ids1[p] != id);
                        }
                    }
                    assert forall|x: u32| x != id implies ids1.contains(x) == ids0.contains(
                        x,
                    ) by {
                        if ids0.contains(x) {
                            let p = choose|p: int| 0 <= p < ids0.len() && ids0[p] == x;
                            if p < k {
                                assert(ids1[p] == x);
                            } else {
                                assert(p != k);
                                assert(ids1[p - 1] == x);
                            }
                            assert(ids1.contains(x));
                        }
                        if ids1.contains(x) {
                            let p = choose|p: int| 0 <= p < ids1.len() && ids1[p] == x;
                            if p < k {
                                assert(ids0[p] == x);
                            } else {
                                assert(ids0[p + 1] == x);
                            }
                            assert(ids0.contains(x));
                        }
                    }
                    assert forall|p: int, q: int|
                        0 <= p < q < ids1.len() implies ids1[p] != ids1[q] by {
                        if q < k {
                            assert(ids1[p] == ids0[p] && ids1[q] == ids0[q]);
                        } else if p < k {
                            assert(ids1[p] == ids0[p] && ids1[q] == ids0[q + 1]);
                        } else {
                            assert(ids1[p] == ids0[p + 1] && ids1[q] == ids0[q + 1]);
                        }
                    }
                    assert(ids0[k] == id);
                }
                return ;
            }
            i = i + 1;
        }
    }

    /// The sessions a broadcast from `sender` goes to: every registered
    /// session but the sender itself, in registry order.
    pub fn others(&self, sender: u32) -> (r: Vec<u32>)
        ensures
            r@ == spec_others(self.ids(), sender),
    {
        let mut out: Vec<u32> = Vec::new();
        let mut i: usize = 0;
        proof {
            assert(self.ids().take(0) =~= Seq::<u32>::empty());
            lemma_others_take_empty(sender);
        }
        while i < self.sessions.len()
            invariant
                i <= self.ids().len(),
                out@ == spec_others(self.ids().take(i as int), sender),
            decreases self.ids().len() - i,
        {
            let x = self.sessions[i];
            proof {
                lemma_others_take_step(self.ids(), sender, i as int);
            }
            if x != sender {
                out.push(x);
            }
            i = i + 1;
        }
        proof {
            assert(self.ids().take(self.ids().len() as int) =~= self.ids());
        }
        out
    }
}

/// The sessions a broadcast from `sender` goes to.
pub open spec fn spec_others(ids: Seq<u32>, sender: u32) -> Seq<u32> {
    ids.filter(|x: u32| x != sender)
}

proof fn lemma_others_take_empty(sender: u32)
    ensures
        spec_others(Seq::<u32>::empty(), sender) == Seq::<u32>::empty(),
{
    reveal_with_fuel(Seq::filter, 1);
}

proof fn lemma_others_take_step(ids: Seq<u32>, sender: u32, i: int)
    requires
        0 <= i < ids.len(),
    ensures
        ids[i] != sender ==> spec_others(ids.take(i + 1), sender) == spec_others(
            ids.take(i),
            sender,
        ).push(ids[i]),
        ids[i] == sender ==> spec_others(ids.take(i + 1), sender) == spec_others(
            ids.take(i),
            sender,
        ),
{
    reveal_with_fuel(Seq::filter, 1);
    assert(ids.take(i + 1).drop_last() =~= ids.take(i));
    assert(ids.take(i + 1).last() == ids[i]);
}

/// Membership in the broadcast set: exactly the registered sessions other
/// than the sender.
pub proof fn lemma_others_membership(ids: Seq<u32>, sender: u32)
    ensures
        forall|x: u32| #[trigger]
            spec_others(ids, sender).contains(x) <==> ids.contains(x) && x != sender,
    decreases ids.len(),
{
    reveal_with_fuel(Seq::filter, 1);
    if ids.len() > 0 {
        lemma_others_membership(ids.drop_last(), sender);
        assert forall|x: u32| #[trigger]
            spec_others(ids, sender).contains(x) <==> ids.contains(x) && x != sender by {
            let prev = spec_others(ids.drop_last(), sender);
            if ids.last() != sender {
                assert(spec_others(ids, sender) == prev.push(ids.last()));
                if ids.contains(x) && x != sender {
                    let k = choose|k: int| 0 <= k < ids.len() && ids[k] == x;
                    if k < ids.len() - 1 {
                        assert(ids.drop_last().contains(x)) by {
                            assert(ids.drop_last()[k] == x);
                        }
                        assert(prev.contains(x));
                        let j = choose|j: int| 0 <= j < prev.len() && prev[j] == x;
                        assert(prev.push(ids.last())[j] == x);
                    } else {
                        assert(prev.push(ids.last()).last() == x);
                    }
                }
                if spec_others(ids, sender).contains(x) {
                    let j = choose|j: int|
                        0 <= j < prev.push(ids.last()).len() && prev.push(ids.last())[j] == x;
                    if j < prev.len() {
                        assert(prev.contains(x)) by {
                            assert(prev[j] == x);
                        }
                        assert(ids.drop_last().contains(x));
                        let k = choose|k: int|
                            0 <= k < ids.drop_last().len() && ids.drop_last()[k] == x;
                        assert(ids[k] == x);
                    } else {
                        assert(x == ids.last());
                        assert(ids[ids.len() - 1] == x);
                    }
                }
            } else {
                assert(spec_others(ids, sender) == prev);
                if ids.contains(x) && x != sender {
                    let k = choose|k: int| 0 <= k < ids.len() && ids[k] == x;
                    assert(k < ids.len() - 1) by {
                        assert(ids.last() == sender);
                    }
                    assert(ids.drop_last()[k] == x);
                    assert(ids.drop_last().contains(x));
                }
                if prev.contains(x) {
                    assert(ids.drop_last().contains(x));
                    let k = choose|k: int|
                        0 <= k < ids.drop_last().len() && ids.drop_last()[k] == x;
                    assert(ids[k] == x);
                }
            }
        }
    }
}

/// The rejection reason `no permission` as bytes.
pub open spec fn spec_no_permission() -> Seq<u8> {
    seq![0x6eu8, 0x6f, 0x20, 0x70, 0x65, 0x72, 0x6d, 0x69, 0x73, 0x73, 0x69, 0x6f, 0x6e]
}

fn no_permission_lit() -> (r: Vec<u8>)
    ensures
        r@ == spec_no_permission(),
{
    let r: Vec<u8> = vec![
        0x6e, 0x6f, 0x20, 0x70, 0x65, 0x72, 0x6d, 0x69, 0x73, 0x73, 0x69, 0x6f, 0x6e,
    ];
    proof {
        assert(r@ =~= spec_no_permission());
    }
    r
}

/// What the relay decides for one incoming frame payload: a fatal
/// connection error, or frames to enqueue, each on the outbound channel of
/// the session named beside it.
pub enum ServerReaction {
    Reject(WireError),
    Send(Seq<(u32, Seq<u8>)>),
}

/// The pushes a granted request fans out: one frame per target session.
pub open spec fn spec_push_list(targets: Seq<u32>, push: Seq<u8>) -> Seq<(u32, Seq<u8>)> {
    targets.map_values(|p: u32| (p, push))
}

/// The per-target views of what the relay hands back.
pub open spec fn spec_send_views(l: Seq<(u32, Vec<u8>)>) -> Seq<(u32, Seq<u8>)> {
    l.map_values(|q: (u32, Vec<u8>)| (q.0, q.1@))
}

/// The success acknowledgment frame.
pub open spec fn spec_ok_response_frame() -> Seq<u8> {
    spec_payload_frame(spec_control_response_name(), spec_ok_error_obj(true, Seq::<u8>::empty()))
}

/// The rejection acknowledgment frame.
pub open spec fn spec_no_permission_frame() -> Seq<u8> {
    spec_payload_frame(spec_control_response_name(), spec_ok_error_obj(false, spec_no_permission()))
}

/// What the relay decides once a control request has been decoded: check
/// the credential against the configured secret; on a match, push the
/// event to every other registered session and acknowledge the sender; on
/// a mismatch, answer the sender alone with `no permission` and push
/// nothing.
pub open spec fn spec_request_reaction(
    ids: Seq<u32>,
    secret: Seq<u8>,
    sender: u32,
    action: int,
    code: int,
    tk: Seq<u8>,
    au: Seq<u8>,
) -> ServerReaction {
    if !valid_utf8(tk) || !valid_utf8(au) {
        ServerReaction::Reject(WireError::BadUtf8)
    } else if au == secret {
        if spec_envelope(spec_push_event_name(), spec_key_event_obj(action, code, tk)).len()
            < FRAME_MAX_LEN {
            let push = spec_payload_frame(
                spec_push_event_name(),
                spec_key_event_obj(action, code, tk),
            );
            ServerReaction::Send(
                spec_push_list(spec_others(ids, sender), push).push(
                    (sender, spec_ok_response_frame()),
                ),
            )
        } else {
            ServerReaction::Reject(WireError::FrameTooLarge)
        }
    } else {
        ServerReaction::Send(seq![(sender, spec_no_permission_frame())])
    }
}

/// What the relay decides for one raw frame payload from `sender`: the
/// whole payload must be UTF-8 (as the original stream decoding demands);
/// a ping is answered with a pong to the sender alone; a pong only marks
/// activity; a control request goes through the authorization gate; any
/// unknown name is silently ignored; and a malformed payload is fatal.
pub open spec fn spec_server_reaction(
    ids: Seq<u32>,
    secret: Seq<u8>,
    sender: u32,
    b: Seq<u8>,
) -> ServerReaction {
    if !valid_utf8(b) {
        ServerReaction::Reject(WireError::BadUtf8)
    } else {
        match spec_parse_envelope(b) {
            None => ServerReaction::Reject(WireError::BadMessage),
            Some((nb, db)) => {
                if nb == spec_ping_name() {
                    match spec_parse_time_obj(db) {
                        None => ServerReaction::Reject(WireError::BadMessage),
                        Some(t) => ServerReaction::Send(
                            seq![
                                (
                                    sender,
                                    spec_payload_frame(
                                        spec_pong_name(),
                                        spec_time_auth_null_obj(t),
                                    ),
                                ),
                            ],
                        ),
                    }
                } else if nb == spec_pong_name() {
                    ServerReaction::Send(Seq::empty())
                } else if nb == spec_control_request_name() {
                    match spec_parse_key_event_auth_obj(db) {
                        None => ServerReaction::Reject(WireError::BadMessage),
                        Some((a, c, tk, au)) => spec_request_reaction(
                            ids,
                            secret,
                            sender,
                            a,
                            c,
                            tk,
                            au,
                        ),
                    }
                } else {
                    ServerReaction::Send(Seq::empty())
                }
            },
        }
    }
}

/// Handles one frame payload received from session `sender`: exactly the
/// decision of [`spec_server_reaction`], with the frames to send returned
/// for the embedding program to enqueue. A failure to enqueue on one
/// target must not keep the caller from attempting the rest.
#[verifier::rlimit(100)]
pub fn server_handle_frame(reg: &Registry, secret: &str, sender: u32, payload: &[u8]) -> (r:
    Result<Vec<(u32, Vec<u8>)>, WireError>)
    ensures
        match spec_server_reaction(reg.ids(), secret.spec_bytes(), sender, payload@) {
            ServerReaction::Reject(e) => r == Err::<Vec<(u32, Vec<u8>)>, WireError>(e),
            ServerReaction::Send(list) => r is Ok && spec_send_views(r.unwrap()@) == list,
        },
{
    match string_from_utf8(slice_to_vec(payload)) {
        Some(_) => (),
        None => {
            return Err(WireError::BadUtf8);
        },
    }
    let (nb, db) = match parse_envelope_bytes(payload) {
        Ok(p) => p,
        Err(e) => {
            return Err(e);
        },
    };
    let pn = ping_name();
    let pon = pong_name();
    let crn = control_request_name();
    if bytes_eq(nb.as_slice(), pn.as_slice()) {
        let t = match parse_time_obj(db.as_slice()) {
            Some(t) => t,
            None => {
                return Err(WireError::BadMessage);
            },
        };
        let reply_payload = write_time_auth_null_obj(t);
        let reply_name = pong_name();
        proof {
            lemma_dec_u64_len(t as int);
            lemma_small_envelope_fits(reply_name@, reply_payload@);
        }
        let frame = match encode_payload_frame(reply_name.as_slice(), reply_payload.as_slice()) {
            Ok(f) => f,
            Err(_) => vstd::pervasive::unreached(),
        };
        let mut out: Vec<(u32, Vec<u8>)> = Vec::new();
        out.push((sender, frame));
        proof {
            assert(spec_send_views(out@) =~= seq![
                (sender, spec_payload_frame(spec_pong_name(), spec_time_auth_null_obj(t as int))),
            ]);
        }
        Ok(out)
    } else if bytes_eq(nb.as_slice(), pon.as_slice()) {
        let out: Vec<(u32, Vec<u8>)> = Vec::new();
        proof {
            assert(spec_send_views(out@) =~= Seq::<(u32, Seq<u8>)>::empty());
        }
        Ok(out)
    } else if bytes_eq(nb.as_slice(), crn.as_slice()) {
        let (action, code, tk, au) = match parse_key_event_auth_obj(db.as_slice()) {
            Some(p) => p,
            None => {
                return Err(WireError::BadMessage);
            },
        };
        let token = match string_from_utf8(tk) {
            Some(s) => s,
            None => {
                return Err(WireError::BadUtf8);
            },
        };
        let auth = match string_from_utf8(au) {
            Some(s) => s,
            None => {
                return Err(WireError::BadUtf8);
            },
        };
        if bytes_eq(auth.as_str().as_bytes(), secret.as_bytes()) {
            let push_payload = write_key_event_obj(action, code, token.as_str().as_bytes());
            let push_name = push_event_name();
            let push_frame = match encode_payload_frame(
                push_name.as_slice(),
                push_payload.as_slice(),
            ) {
                Ok(f) => f,
                Err(e) => {
                    return Err(e);
                },
            };
            let ghost push = push_frame@;
            let targets = reg.others(sender);
            let mut out: Vec<(u32, Vec<u8>)> = Vec::new();
            let mut i: usize = 0;
            while i < targets.len()
                invariant
                    push == push_frame@,
                    i <= targets@.len(),
                    out@.len() == i,
                    forall|j: int|
                        0 <= j < i ==> out@[j].0 == targets@[j] && out@[j].1@ == push,
                decreases targets@.len() - i,
            {
                let copy = slice_to_vec(push_frame.as_slice());
                out.push((targets[i], copy));
                proof {
                    assert(out@[i as int].0 == targets@[i as int] && out@[i as int].1@ == push);
                }
                i = i + 1;
            }
            let ok_err: Vec<u8> = Vec::new();
            let reply_payload = write_ok_error_obj(true, ok_err.as_slice());
            let reply_name = control_response_name();
            proof {
                lemma_small_envelope_fits(reply_name@, reply_payload@);
            }
            let ok_frame = match encode_payload_frame(
                reply_name.as_slice(),
                reply_payload.as_slice(),
            ) {
                Ok(f) => f,
                Err(_) => vstd::pervasive::unreached(),
            };
            out.push((sender, ok_frame));
            proof {
                assert(ok_err@ =~= Seq::<u8>::empty());
                assert(spec_send_views(out@) =~= spec_push_list(
                    spec_others(reg.ids(), sender),
                    push,
                ).push((sender, spec_ok_response_frame())));
            }
            Ok(out)
        } else {
            let reason = no_permission_lit();
            let reply_payload = write_ok_error_obj(false, reason.as_slice());
            let reply_name = control_response_name();
            proof {
                crate::json::lemma_esc_len(spec_no_permission());
                lemma_small_envelope_fits(reply_name@, reply_payload@);
            }
            let frame = match encode_payload_frame(
                reply_name.as_slice(),
                reply_payload.as_slice(),
            ) {
                Ok(f) => f,
                Err(_) => vstd::pervasive::unreached(),
            };
            let mut out: Vec<(u32, Vec<u8>)> = Vec::new();
            out.push((sender, frame));
            proof {
                assert(spec_send_views(out@) =~= seq![(sender, spec_no_permission_frame())]);
            }
            Ok(out)
        }
    } else {
        let out: Vec<(u32, Vec<u8>)> = Vec::new();
        proof {
            assert(spec_send_views(out@) =~= Seq::<(u32, Seq<u8>)>::empty());
        }
        Ok(out)
    }
}

/// The authorization gate, granted: a request bearing the configured
/// secret is pushed to every other registered session — each exactly the
/// event's fields, never the sender itself — and the sender receives the
/// success acknowledgment and no push of its own event.
pub proof fn lemma_authorized_broadcast(
    ids: Seq<u32>,
    secret: Seq<u8>,
    sender: u32,
    action: int,
    code: int,
    tk: Seq<u8>,
)
    requires
        valid_utf8(tk),
        valid_utf8(secret),
        spec_envelope(spec_push_event_name(), spec_key_event_obj(action, code, tk)).len()
            < FRAME_MAX_LEN,
    ensures
        spec_request_reaction(ids, secret, sender, action, code, tk, secret) matches
            ServerReaction::Send(list) && {
            let others = spec_others(ids, sender);
            let push = spec_payload_frame(
                spec_push_event_name(),
                spec_key_event_obj(action, code, tk),
            );
            &&& list.len() == others.len() + 1
            &&& forall|i: int| 0 <= i < others.len() ==> list[i] == (others[i], push)
            &&& forall|i: int| 0 <= i < others.len() ==> #[trigger] list[i].0 != sender
            &&& forall|x: u32|
                ids.contains(x) && x != sender ==> #[trigger] others.contains(x)
            &&& forall|x: u32|
                #[trigger] others.contains(x) ==> ids.contains(x) && x != sender
            &&& list[others.len() as int] == (sender, spec_ok_response_frame())
        },
{
    lemma_others_membership(ids, sender);
    let others = spec_others(ids, sender);
    let push = spec_payload_frame(spec_push_event_name(), spec_key_event_obj(action, code, tk));
    let list = spec_push_list(others, push).push((sender, spec_ok_response_frame()));
    assert forall|i: int| 0 <= i < others.len() implies list[i] == (others[i], push) by {
        assert(spec_push_list(others, push)[i] == (others[i], push));
    }
    assert forall|i: int| 0 <= i < others.len() implies #[trigger] list[i].0 != sender by {
        assert(list[i] == (others[i], push));
        assert(others.contains(others[i])) by {
            assert(others[i] == others[i]);
        }
    }
}

/// The authorization gate, refused: a request bearing anything but the
/// configured secret draws exactly one reply — `no permission`, to the
/// sender — and not a single push to anyone.
pub proof fn lemma_rejected_request(
    ids: Seq<u32>,
    secret: Seq<u8>,
    sender: u32,
    action: int,
    code: int,
    tk: Seq<u8>,
    au: Seq<u8>,
)
    requires
        valid_utf8(tk),
        valid_utf8(au),
        au != secret,
    ensures
        spec_request_reaction(ids, secret, sender, action, code, tk, au) matches
            ServerReaction::Send(list) && {
            &&& list.len() == 1
            &&& list[0] == (sender, spec_no_permission_frame())
        },
{
}

/// The relay, end to end at the wire level: for a whole control-request
/// envelope with ASCII token and credential, the reaction to the raw
/// payload bytes is exactly the authorization gate's decision on the
/// decoded request. Composed with [`lemma_authorized_broadcast`] and
/// [`lemma_rejected_request`], this carries the two authorization laws
/// down to the bytes a peer actually sends.
#[verifier::rlimit(100)]
pub proof fn lemma_request_envelope_reaction(
    ids: Seq<u32>,
    secret: Seq<u8>,
    sender: u32,
    action: int,
    code: int,
    tk: Seq<u8>,
    au: Seq<u8>,
)
    requires
        0 <= action <= u32::MAX,
        0 <= code <= u32::MAX,
        all_ascii(tk),
        all_ascii(au),
    ensures
        spec_server_reaction(
            ids,
            secret,
            sender,
            spec_envelope(
                spec_control_request_name(),
                spec_key_event_auth_obj(action, code, tk, au),
            ),
        ) == spec_request_reaction(ids, secret, sender, action, code, tk, au),
{
    let nb = spec_control_request_name();
    let db = spec_key_event_auth_obj(action, code, tk, au);
    let b = spec_envelope(nb, db);
    assert(all_ascii(nb));
    lemma_key_event_auth_obj_ascii(action, code, tk, au);
    lemma_envelope_ascii(nb, db);
    lemma_ascii_valid_utf8(b);
    lemma_envelope_round_trip(nb, db);
    lemma_key_event_auth_round_trip(action, code, tk, au);
    assert(nb != spec_ping_name()) by {
        assert(nb.len() == 31 && spec_ping_name().len() == 4);
    }
    assert(nb != spec_pong_name()) by {
        assert(spec_pong_name().len() == 4);
    }
}

} // verus!
