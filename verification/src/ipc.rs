//! What the bridge does with the requests of its clients before it meets them,
//! and what a client does with the answer.
use vstd::prelude::*;
use vstd::string::*;

use crate::config::{failure, Failure};
use crate::json::{Json, Tree};
use crate::protocol::{
    grants, refuses, RpcEnvelope, RpcResponse, IPC_PROTOCOL_VERSION, MAX_IPC_MESSAGE_BYTES,
};
use crate::security::{constant_time_eq, constant_time_eq_is_equality};
use crate::text::{cat, cat3};

verus! {

broadcast use vstd::string::group_string_axioms;

/// How often a client tries to reach the bridge.
pub const CONNECT_ATTEMPTS: u32 = 20;

/// How many milliseconds a client waits between two tries.
pub const CONNECT_PAUSE_MILLISECONDS: u64 = 50;

/// The identifier in the answer to a request that was not read.
pub const NO_REQUEST: u128 = 0;

/// What comes of the length of a request.
pub open spec fn length_refused(
    len: usize,
    r: Option<RpcResponse>,
) -> bool {
    if len == 0 {
        r matches Some(x) && refuses(
            x,
            NO_REQUEST,
            "empty_request"@,
            "request was empty"@,
        )
    } else if len > MAX_IPC_MESSAGE_BYTES {
        r matches Some(x) && refuses(
            x,
            NO_REQUEST,
            "request_too_large"@,
            "request exceeded the IPC size limit"@,
        )
    } else {
        r is None
    }
}

/// Refuses a request by its length, before it is read.
pub fn refuse_by_length(len: usize) -> (r: Option<RpcResponse>)
    ensures
        length_refused(len, r),
{
    if len == 0 {
        return Some(RpcResponse::error(NO_REQUEST, "empty_request", "request was empty"));
    }
    if len > MAX_IPC_MESSAGE_BYTES {
        return Some(
            RpcResponse::error(
                NO_REQUEST,
                "request_too_large",
                "request exceeded the IPC size limit",
            ),
        );
    }
    None
}

/// Refuses a request that could not be read.
pub fn refuse_unreadable() -> (r: RpcResponse)
    ensures
        refuses(r, NO_REQUEST, "invalid_json"@, "request was not valid Bridge JSON"@),
{
    RpcResponse::error(NO_REQUEST, "invalid_json", "request was not valid Bridge JSON")
}

/// What comes of a request: it is refused where it is of another version, or without
/// the token that both sides share.
pub open spec fn refused(envelope: RpcEnvelope, token: Seq<char>, r: Option<RpcResponse>) -> bool {
    if envelope.version != IPC_PROTOCOL_VERSION {
        r matches Some(x) && refuses(
            x,
            envelope.request_id,
            "unsupported_protocol"@,
            "IPC protocol version is not supported"@,
        )
    } else if envelope.auth_token@ != token {
        r matches Some(x) && refuses(
            x,
            envelope.request_id,
            "unauthorized"@,
            "IPC authentication failed"@,
        )
    } else {
        r is None
    }
}

/// Refuses a request of another version or without the token that both sides
/// share.
pub fn refuse_envelope(envelope: &RpcEnvelope, ipc_token: &str) -> (r: Option<RpcResponse>)
    ensures
        refused(*envelope, ipc_token@, r),
{
    if envelope.version != IPC_PROTOCOL_VERSION {
        return Some(
            RpcResponse::error(
                envelope.request_id,
                "unsupported_protocol",
                "IPC protocol version is not supported",
            ),
        );
    }
    let shown = envelope.auth_token.as_str();
    proof {
        constant_time_eq_is_equality(shown, ipc_token);
    }
    if !constant_time_eq(shown, ipc_token) {
        return Some(
            RpcResponse::error(envelope.request_id, "unauthorized", "IPC authentication failed"),
        );
    }
    None
}

/// The answer to a request that the bridge has tried to meet.
pub fn answer(request_id: u128, outcome: Result<Json, Failure>) -> (r: RpcResponse)
    ensures
        match outcome {
            Ok(result) => grants(r, request_id, result@),
            Err(f) => refuses(r, request_id, "bridge_error"@, f.message@),
        },
{
    match outcome {
        Ok(result) => RpcResponse::ok(request_id, result),
        Err(f) => RpcResponse::error(request_id, "bridge_error", f.message.as_str()),
    }
}

/// Whether a client may send a request of that length.
pub fn check_request_length(len: usize) -> (r: Result<(), Failure>)
    ensures
        match r {
            Ok(()) => len <= MAX_IPC_MESSAGE_BYTES,
            Err(f) => len > MAX_IPC_MESSAGE_BYTES && f.message@
                == "Bridge request exceeds the IPC size limit"@,
        },
{
    if len > MAX_IPC_MESSAGE_BYTES {
        return Err(failure("Bridge request exceeds the IPC size limit"));
    }
    Ok(())
}

/// Whether a client may read an answer of that length.
pub fn check_response_length(len: usize) -> (r: Result<(), Failure>)
    ensures
        match r {
            Ok(()) => 0 < len <= MAX_IPC_MESSAGE_BYTES,
            Err(f) => if len == 0 {
                f.message@ == "QQ Bridge closed without a response"@
            } else {
                len > MAX_IPC_MESSAGE_BYTES && f.message@
                    == "Bridge response exceeds the IPC size limit"@
            },
        },
{
    if len == 0 {
        return Err(failure("QQ Bridge closed without a response"));
    }
    if len > MAX_IPC_MESSAGE_BYTES {
        return Err(failure("Bridge response exceeds the IPC size limit"));
    }
    Ok(())
}

/// What a client takes from the answer to its request.
pub open spec fn takes(response: RpcResponse, id: u128, r: Result<Json, Failure>) -> bool {
    if response.version != IPC_PROTOCOL_VERSION || response.request_id != id {
        r matches Err(f) && f.message@
            == "Bridge response identity or protocol version did not match"@
    } else {
        match (response.error, response.result) {
            (Some(e), _) => r matches Err(f) && f.message@ == e.code@ + ": "@ + e.message@,
            (None, Some(result)) => r == Ok::<Json, Failure>(result),
            (None, None) => r matches Err(f) && f.message@ == "Bridge response omitted result"@,
        }
    }
}

/// What a client takes from the answer to its request.
pub fn read_response(response: RpcResponse, request_id: u128) -> (r: Result<Json, Failure>)
    ensures
        takes(response, request_id, r),
{
    if response.version != IPC_PROTOCOL_VERSION || response.request_id != request_id {
        return Err(failure("Bridge response identity or protocol version did not match"));
    }
    if let Some(e) = response.error {
        let message = cat3(e.code.as_str(), ": ", e.message.as_str());
        return Err(failure(message.as_str()));
    }
    match response.result {
        Some(result) => Ok(result),
        None => Err(failure("Bridge response omitted result")),
    }
}

/// What a client says that did not reach the bridge.
pub fn unreachable_bridge(last_error: Option<&str>) -> (r: Failure)
    ensures
        r.message@ == "failed to connect to QQ Bridge: "@ + (match last_error {
            Some(e) => e@,
            None => "unknown error"@,
        }),
{
    let reason = match last_error {
        Some(e) => e,
        None => "unknown error",
    };
    let message = cat("failed to connect to QQ Bridge: ", reason);
    failure(message.as_str())
}

/// What the bridge answers is what the client takes: a result that it grants, or
/// its refusal by code and message.
pub proof fn answers_arrive(
    response: RpcResponse,
    id: u128,
    outcome: Result<Tree, (Seq<char>, Seq<char>)>,
    r: Result<Json, Failure>,
)
    requires
        match outcome {
            Ok(result) => grants(response, id, result),
            Err((code, message)) => refuses(response, id, code, message),
        },
        takes(response, id, r),
    ensures
        match outcome {
            Ok(result) => r matches Ok(j) && j@ == result,
            Err((code, message)) => r matches Err(f) && f.message@ == code + ": "@ + message,
        },
{
}

/// A request is let in just where it is of the version spoken and shows the token that
/// both sides share; a refusal bears the request's identifier.
pub proof fn only_those_with_the_token_are_let_in(
    envelope: RpcEnvelope,
    token: Seq<char>,
    r: Option<RpcResponse>,
)
    requires
        refused(envelope, token, r),
    ensures
        r is None <==> envelope.version == IPC_PROTOCOL_VERSION && envelope.auth_token@ == token,
        r matches Some(x) ==> x.request_id == envelope.request_id && x.result is None && x.error
            is Some,
        envelope.version == IPC_PROTOCOL_VERSION && envelope.auth_token@ != token ==> (
        r matches Some(x) && x.error matches Some(e) && e.code@ == "unauthorized"@),
{
}

} // verus!
