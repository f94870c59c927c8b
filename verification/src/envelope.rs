//! The envelope codec. Every frame payload is one envelope: a compact JSON
//! object `{"name":<string>,"data":<string>}`, where `name` selects the
//! payload schema and `data` carries the payload's own encoding opaquely.

use vstd::prelude::*;
use vstd::utf8::{valid_utf8, encode_utf8};
use crate::json::{
    esc, spec_json_string, spec_parse_string_body, match_at, json_string_into, parse_string_body,
    expect_at, lemma_esc_len, lemma_parse_esc_string, all_ascii, lemma_esc_ascii,
};
use crate::errors::WireError;
use crate::frame::{spec_frame, encode_frame, FRAME_MAX_LEN};
use crate::util::string_from_utf8;

verus! {

/// The bytes `{"name":` that open every envelope.
pub open spec fn spec_name_key() -> Seq<u8> {
    seq![0x7bu8, 0x22, 0x6e, 0x61, 0x6d, 0x65, 0x22, 0x3a]
}

/// The bytes `,"data":` between the two fields.
pub open spec fn spec_data_key() -> Seq<u8> {
    seq![0x2cu8, 0x22, 0x64, 0x61, 0x74, 0x61, 0x22, 0x3a]
}

/// The envelope holding the (raw, unescaped) field bytes `nb` and `db`.
pub open spec fn spec_envelope(nb: Seq<u8>, db: Seq<u8>) -> Seq<u8> {
    spec_name_key() + spec_json_string(nb) + spec_data_key() + spec_json_string(db) + seq![0x7du8]
}

/// The envelope for a name and a data string, at the character level.
pub open spec fn spec_envelope_of(name: Seq<char>, data: Seq<char>) -> Seq<u8> {
    spec_envelope(encode_utf8(name), encode_utf8(data))
}

/// Strict parse of one envelope: exactly the canonical object shape, the
/// two fields in order, nothing before or after.
pub open spec fn spec_parse_envelope(b: Seq<u8>) -> Option<(Seq<u8>, Seq<u8>)> {
    if !match_at(b, 0, spec_name_key().push(0x22)) {
        None
    } else {
        match spec_parse_string_body(b, 9, Seq::empty()) {
            None => None,
            Some((nb, i)) => {
                if !match_at(b, i, spec_data_key().push(0x22)) {
                    None
                } else {
                    match spec_parse_string_body(b, i + 9, Seq::empty()) {
                        None => None,
                        Some((db, j)) => {
                            if 0 <= j < b.len() && b[j] == 0x7d && j + 1 == b.len() {
                                Some((nb, db))
                            } else {
                                None
                            }
                        },
                    }
                }
            },
        }
    }
}

fn name_key_lit() -> (r: Vec<u8>)
    ensures
        r@ == spec_name_key().push(0x22),
{
    let r = vec![0x7bu8, 0x22, 0x6e, 0x61, 0x6d, 0x65, 0x22, 0x3a, 0x22];
    proof {
        assert(r@ =~= spec_name_key().push(0x22));
    }
    r
}

fn data_key_lit() -> (r: Vec<u8>)
    ensures
        r@ == spec_data_key().push(0x22),
{
    let r = vec![0x2cu8, 0x22, 0x64, 0x61, 0x74, 0x61, 0x22, 0x3a, 0x22];
    proof {
        assert(r@ =~= spec_data_key().push(0x22));
    }
    r
}

/// Encodes one envelope from the raw bytes of its two fields.
pub fn encode_envelope_bytes(nb: &[u8], db: &[u8]) -> (r: Vec<u8>)
    ensures
        r@ == spec_envelope(nb@, db@),
{
    let mut out: Vec<u8> = Vec::new();
    out.push(0x7b);
    out.push(0x22);
    out.push(0x6e);
    out.push(0x61);
    out.push(0x6d);
    out.push(0x65);
    out.push(0x22);
    out.push(0x3a);
    proof {
        assert(out@ =~= spec_name_key());
    }
    json_string_into(&mut out, nb);
    out.push(0x2c);
    out.push(0x22);
    out.push(0x64);
    out.push(0x61);
    out.push(0x74);
    out.push(0x61);
    out.push(0x22);
    out.push(0x3a);
    proof {
        assert(out@ =~= spec_name_key() + spec_json_string(nb@) + spec_data_key());
    }
    json_string_into(&mut out, db);
    out.push(0x7d);
    proof {
        assert(out@ =~= spec_envelope(nb@, db@));
    }
    out
}

/// Encodes one envelope from its two fields.
pub fn encode_envelope(name: &str, data: &str) -> (r: Vec<u8>)
    ensures
        r@ == spec_envelope_of(name@, data@),
{
    encode_envelope_bytes(name.as_bytes(), data.as_bytes())
}

/// Parses one envelope into the raw bytes of its two fields. Fails on
/// anything but the canonical envelope shape.
pub fn parse_envelope_bytes(payload: &[u8]) -> (r: Result<(Vec<u8>, Vec<u8>), WireError>)
    ensures
        match spec_parse_envelope(payload@) {
            None => r == Err::<(Vec<u8>, Vec<u8>), WireError>(WireError::BadMessage),
            Some((nb, db)) => r is Ok && r.unwrap().0@ == nb && r.unwrap().1@ == db,
        },
{
    let head = name_key_lit();
    let i0 = match expect_at(payload, 0, head.as_slice()) {
        Some(i) => i,
        None => {
            return Err(WireError::BadMessage);
        },
    };
    let (nb, i1) = match parse_string_body(payload, i0) {
        Some(p) => p,
        None => {
            return Err(WireError::BadMessage);
        },
    };
    let key = data_key_lit();
    let i2 = match expect_at(payload, i1, key.as_slice()) {
        Some(i) => i,
        None => {
            return Err(WireError::BadMessage);
        },
    };
    let (db, i3) = match parse_string_body(payload, i2) {
        Some(p) => p,
        None => {
            return Err(WireError::BadMessage);
        },
    };
    if i3 >= payload.len() || payload[i3] != 0x7d || i3 + 1 != payload.len() {
        return Err(WireError::BadMessage);
    }
    Ok((nb, db))
}

/// Parses one envelope into its `name` and `data` strings. Fails with
/// [`WireError::BadMessage`] on anything but the canonical envelope shape,
/// and with [`WireError::BadUtf8`] when a field's bytes are not UTF-8.
pub fn parse_envelope(payload: &[u8]) -> (r: Result<(String, String), WireError>)
    ensures
        match spec_parse_envelope(payload@) {
            None => r == Err::<(String, String), WireError>(WireError::BadMessage),
            Some((nb, db)) => {
                if valid_utf8(nb) && valid_utf8(db) {
                    &&& r is Ok
                    &&& encode_utf8(r.unwrap().0@) == nb
                    &&& encode_utf8(r.unwrap().1@) == db
                } else {
                    r == Err::<(String, String), WireError>(WireError::BadUtf8)
                }
            },
        },
{
    let (nb, db) = match parse_envelope_bytes(payload) {
        Ok(p) => p,
        Err(e) => {
            return Err(e);
        },
    };
    let name = match string_from_utf8(nb) {
        Some(s) => s,
        None => {
            return Err(WireError::BadUtf8);
        },
    };
    let data = match string_from_utf8(db) {
        Some(s) => s,
        None => {
            return Err(WireError::BadUtf8);
        },
    };
    Ok((name, data))
}

/// The complete wire bytes of one message: the envelope inside one frame,
/// from the raw bytes of the two fields.
pub open spec fn spec_payload_frame(nb: Seq<u8>, db: Seq<u8>) -> Seq<u8> {
    spec_frame(spec_envelope(nb, db))
}

/// Encodes one message as a frame, from the raw bytes of its two fields.
/// Fails only when the envelope exceeds the framing bound.
pub fn encode_payload_frame(nb: &[u8], db: &[u8]) -> (r: Result<Vec<u8>, WireError>)
    ensures
        spec_envelope(nb@, db@).len() < FRAME_MAX_LEN ==> r is Ok && r.unwrap()@
            == spec_payload_frame(nb@, db@),
        spec_envelope(nb@, db@).len() >= FRAME_MAX_LEN ==> r == Err::<Vec<u8>, WireError>(
            WireError::FrameTooLarge,
        ),
{
    let payload = encode_envelope_bytes(nb, db);
    encode_frame(payload.as_slice())
}

/// The complete wire bytes of one message: the envelope inside one frame.
pub open spec fn spec_message_frame(name: Seq<char>, data: Seq<char>) -> Seq<u8> {
    spec_frame(spec_envelope_of(name, data))
}

/// Encodes one message as a frame ready for the socket. Fails only when
/// the envelope exceeds the framing bound (an envelope is never empty).
pub fn encode_message_frame(name: &str, data: &str) -> (r: Result<Vec<u8>, WireError>)
    ensures
        spec_envelope_of(name@, data@).len() < FRAME_MAX_LEN ==> r is Ok && r.unwrap()@
            == spec_message_frame(name@, data@),
        spec_envelope_of(name@, data@).len() >= FRAME_MAX_LEN ==> r == Err::<Vec<u8>, WireError>(
            WireError::FrameTooLarge,
        ),
{
    let payload = encode_envelope(name, data);
    encode_frame(payload.as_slice())
}

/// A message whose name and payload are short always fits in one frame.
pub proof fn lemma_small_envelope_fits(nb: Seq<u8>, db: Seq<u8>)
    requires
        nb.len() <= 40,
        db.len() <= 160,
    ensures
        spec_envelope(nb, db).len() < FRAME_MAX_LEN,
{
    lemma_esc_len(nb);
    lemma_esc_len(db);
}

/// Round trip of the envelope codec: parsing an encoded envelope yields
/// exactly the two fields that were encoded into it.
pub proof fn lemma_envelope_round_trip(nb: Seq<u8>, db: Seq<u8>)
    ensures
        spec_parse_envelope(spec_envelope(nb, db)) == Some((nb, db)),
{
    let b = spec_envelope(nb, db);
    let e1 = esc(nb).len() as int;
    let e2 = esc(db).len() as int;
    assert(b.len() == 21 + e1 + e2);
    assert(b.subrange(0, 9) =~= spec_name_key().push(0x22));
    assert(match_at(b, 0, spec_name_key().push(0x22)));
    assert(b.subrange(9, 9 + e1 + 1) =~= esc(nb) + seq![0x22u8]);
    lemma_parse_esc_string(b, 9, Seq::empty(), nb);
    assert(Seq::<u8>::empty() + nb =~= nb);
    let i1 = 9 + e1 + 1;
    assert(spec_parse_string_body(b, 9, Seq::empty()) == Some((nb, i1)));
    assert(b.subrange(i1, i1 + 9) =~= spec_data_key().push(0x22));
    assert(match_at(b, i1, spec_data_key().push(0x22)));
    assert(b.subrange(i1 + 9, i1 + 9 + e2 + 1) =~= esc(db) + seq![0x22u8]);
    lemma_parse_esc_string(b, i1 + 9, Seq::empty(), db);
    assert(Seq::<u8>::empty() + db =~= db);
    let j = i1 + 9 + e2 + 1;
    assert(spec_parse_string_body(b, i1 + 9, Seq::empty()) == Some((db, j)));
    assert(b[j] == 0x7d);
    assert(j + 1 == b.len());
}

/// An envelope built from ASCII fields is ASCII throughout.
pub proof fn lemma_envelope_ascii(nb: Seq<u8>, db: Seq<u8>)
    requires
        all_ascii(nb),
        all_ascii(db),
    ensures
        all_ascii(spec_envelope(nb, db)),
{
    lemma_esc_ascii(nb);
    lemma_esc_ascii(db);
    let b = spec_envelope(nb, db);
    assert forall|i: int| 0 <= i < b.len() implies b[i] < 0x80 by {
    }
}

} // verus!
