//! The request-dispatching decisions of the server, and the client's
//! decision on a response.
//!
//! The server reads one request line per connection, decodes it with
//! [`crate::proto::decode_req`], runs the engine operation, and answers with
//! what the functions here decide; the unverified shell around the library
//! only moves bytes. The client sends one encoded request, reads the whole
//! response, decodes it with [`crate::proto::decode_resp`], and acts as
//! [`client_action`] decides.

use vstd::prelude::*;

use crate::engine::KvError;
use crate::proto::{RespProto, RespProtoV};

verus! {

/// The server's reply to a lookup's outcome: a successful lookup is
/// answered with `OK` carrying the value or its absence; a failed engine
/// call is answered with nothing, and the connection just closes.
pub fn response_for_get(outcome: Result<Option<String>, KvError>) -> (r: Option<RespProto>)
    ensures
        match outcome {
            Ok(Some(v)) => r is Some && r->Some_0@ == RespProtoV::OK(Some(v@)),
            Ok(None) => r is Some && r->Some_0@ == RespProtoV::OK(None::<Seq<char>>),
            Err(_) => r is None,
        },
{
    match outcome {
        Ok(v) => Some(RespProto::OK(v)),
        Err(_) => None,
    }
}

/// The server's reply to a removal's outcome: a missing key is answered
/// with the well-known `Key not found` message; a success — and any other
/// failure — is answered with nothing, and the connection just closes.
pub fn response_for_remove(outcome: Result<(), KvError>) -> (r: Option<RespProto>)
    ensures
        match outcome {
            Ok(()) => r is None,
            Err(e) => if e == KvError::KeyNotFound {
                r is Some && r->Some_0@ == RespProtoV::Error("Key not found"@)
            } else {
                r is None
            },
        },
{
    match outcome {
        Ok(()) => None,
        Err(KvError::KeyNotFound) => Some(RespProto::Error(String::from_str("Key not found"))),
        Err(_) => None,
    }
}

/// What a client does after one request: nothing visible, print a value or
/// the absence mark on standard output, or report a failure and exit
/// non-zero.
#[derive(Debug, Clone, PartialEq, Eq)]
pub enum ClientAction {
    /// The request succeeded with nothing to show: a closed connection with
    /// no response body is a successful `Put`.
    Accepted,
    /// Print the value a lookup found.
    PrintValue(String),
    /// Print the absence mark `Key not found` for a lookup that missed.
    PrintMissing,
    /// Surface the server's error message and exit non-zero.
    Fail(String),
}

/// The client's decision on a response: end-of-input with no response at
/// all is acceptance; a value is printed; an absent value prints the
/// absence mark; a server error fails the command.
pub fn client_action(resp: Option<RespProto>) -> (r: ClientAction)
    ensures
        match resp {
            None => r is Accepted,
            Some(p) => match p@ {
                RespProtoV::OK(Some(v)) => r is PrintValue && r->PrintValue_0@ == v,
                RespProtoV::OK(None) => r is PrintMissing,
                RespProtoV::Error(m) => r is Fail && r->Fail_0@ == m,
            },
        },
{
    match resp {
        None => ClientAction::Accepted,
        Some(RespProto::OK(Some(v))) => ClientAction::PrintValue(v),
        Some(RespProto::OK(None)) => ClientAction::PrintMissing,
        Some(RespProto::Error(m)) => ClientAction::Fail(m),
    }
}

} // verus!
