//! Response classification: maps a decoded response envelope's kind tag to
//! the call's success payload or to a terminal error.

use vstd::prelude::*;
use crate::errors::MelnetError;
use crate::wire::RawResponse;
use crate::wire::decode_response;
use crate::wire::spec_decode_response;

verus! {

/// The bytes of the "Ok" kind tag.
pub open spec fn kind_ok() -> Seq<u8> {
    seq![79u8, 107u8]
}

/// The bytes of the "NoVerb" kind tag.
pub open spec fn kind_noverb() -> Seq<u8> {
    seq![78u8, 111u8, 86u8, 101u8, 114u8, 98u8]
}

/// What a response envelope means to the caller.
#[derive(Clone, Debug, PartialEq, Eq)]
pub enum Classified {
    /// Kind "Ok": the body is the encoded success value, still to be
    /// decoded by the caller's codec.
    Payload(Vec<u8>),
    /// Any other kind: a terminal failure; never retried.
    Error(MelnetError),
}

/// True exactly when `k` spells "Ok".
fn is_ok_kind(k: &Vec<u8>) -> (r: bool)
    ensures
        r == (k@ == kind_ok()),
{
    let r = k.len() == 2 && k[0] == 79 && k[1] == 107;
    proof {
        if r {
            assert(k@ =~= kind_ok());
        }
    }
    r
}

/// True exactly when `k` spells "NoVerb".
fn is_noverb_kind(k: &Vec<u8>) -> (r: bool)
    ensures
        r == (k@ == kind_noverb()),
{
    let r = k.len() == 6 && k[0] == 78 && k[1] == 111 && k[2] == 86 && k[3] == 101 && k[4] == 114
        && k[5] == 98;
    proof {
        if r {
            assert(k@ =~= kind_noverb());
        }
    }
    r
}

/// Classifies a decoded response envelope: "Ok" carries the payload,
/// "NoVerb" means the server lacks the verb, and every other kind is an
/// application error whose message is the body, surfaced verbatim.
pub fn classify_response(resp: RawResponse) -> (r: Classified)
    ensures
        resp.kind@ == kind_ok() ==> (r matches Classified::Payload(p) && p@ == resp.body@),
        resp.kind@ == kind_noverb() ==> r == Classified::Error(MelnetError::VerbNotFound),
        resp.kind@ != kind_ok() && resp.kind@ != kind_noverb() ==> (r matches Classified::Error(e)
            && e matches MelnetError::Custom(m) && m@ == resp.body@),
{
    if is_ok_kind(&resp.kind) {
        Classified::Payload(resp.body)
    } else if is_noverb_kind(&resp.kind) {
        Classified::Error(MelnetError::VerbNotFound)
    } else {
        Classified::Error(MelnetError::Custom(resp.body))
    }
}

/// Interprets one received frame payload end to end: a buffer that is no
/// well-formed response envelope is a transient network failure (envelope
/// corruption is indistinguishable from a transport fault); a well-formed
/// one is classified by its kind.
pub fn interpret_response(b: &Vec<u8>) -> (r: Classified)
    ensures
        spec_decode_response(b@) is None ==> r == Classified::Error(MelnetError::Network),
        spec_decode_response(b@) matches Some(kb) ==> {
            &&& kb.0 == kind_ok() ==> (r matches Classified::Payload(p) && p@ == kb.1)
            &&& kb.0 == kind_noverb() ==> r == Classified::Error(MelnetError::VerbNotFound)
            &&& kb.0 != kind_ok() && kb.0 != kind_noverb() ==> (r matches Classified::Error(e)
                && e matches MelnetError::Custom(m) && m@ == kb.1)
        },
{
    match decode_response(b) {
        None => Classified::Error(MelnetError::Network),
        Some(resp) => classify_response(resp),
    }
}

} // verus!
