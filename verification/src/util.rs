//! Small helpers shared by both ends of the protocol, and the trusted
//! bridges to the parts of std that verification has no specification for.

use vstd::prelude::*;
use vstd::utf8::{valid_utf8, encode_utf8};

verus! {

/// Relies on `String::from_utf8`: it succeeds exactly on input that is
/// valid UTF-8, and the returned string then consists of those bytes.
#[verifier::external_body]
pub(crate) fn string_from_utf8(v: Vec<u8>) -> (r: Option<String>)
    ensures
        r is Some <==> valid_utf8(v@),
        r is Some ==> encode_utf8(r.unwrap()@) == v@,
{
    String::from_utf8(v).ok()
}

/// Relies on `std::time::SystemTime::now` and `duration_since`: the
/// milliseconds since the Unix epoch (zero on a clock that reads before
/// it). Nothing useful can be promised of what a clock returns.
#[verifier::external_body]
pub fn now_millis() -> u64 {
    let start = std::time::SystemTime::now();
    match start.duration_since(std::time::UNIX_EPOCH) {
        Ok(since_the_epoch) => since_the_epoch.as_millis() as u64,
        Err(_) => 0,
    }
}

/// A payload type that knows the name tagging its envelopes on the wire.
pub trait PayloadName {
    /// The wire name in specifications.
    spec fn spec_name() -> Seq<char>;

    /// The wire name.
    fn payload_name() -> (r: String)
        ensures
            r@ == Self::spec_name(),
    ;
}

/// The bare name of a payload type: the envelopes carrying a payload are
/// tagged with it.
pub fn type_name_of<T: PayloadName>() -> (r: String)
    ensures
        r@ == T::spec_name(),
{
    T::payload_name()
}

} // verus!
