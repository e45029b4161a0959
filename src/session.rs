//! Session-level errors, and the decisions taken on a connection's first frame.
use vstd::prelude::*;

use crate::clients::ClientRegistry;
use crate::head::{CURRENT_MAJOR, CURRENT_PATCH};
use crate::request::{ActionType, Request};
use crate::response::{Response, StatusType};

verus! {

/// Why a client's session ends or a frame could not be exchanged.
#[derive(Clone, Copy, Debug, PartialEq, Eq, Structural)]
pub enum Error {
    /// Reading from the peer failed.
    ReadingError,
    /// Writing to the peer failed.
    WritingError,
    /// The peer sent bytes that are not a frame.
    TrtcpError(crate::error::Error),
    /// Some other I/O failure.
    IOError,
    /// No bytes were available yet.
    NoData,
    /// The peer closed the connection.
    ConnectionClosed,
    /// The frame's major version differs from the broker's.
    UnsupportedVersion,
}

/// What the first frame on a new connection asks for.
#[derive(Clone, Copy, Debug, PartialEq, Eq, Structural)]
pub enum FirstFrame {
    /// Bind the connection to the caller's name and keep it open.
    Connect,
    /// Serve one invoke, then close.
    Invoke,
    /// Anything else: answer `NeedConnection`, then close.
    Reject,
}

/// How the first frame of a connection is served, by its action type.
pub open spec fn first_frame_of(t: ActionType) -> FirstFrame {
    match t {
        ActionType::Connect => FirstFrame::Connect,
        ActionType::Invoke => FirstFrame::Invoke,
        _ => FirstFrame::Reject,
    }
}

/// Decides how to serve the first frame of a connection.
pub fn classify_first_frame(request: &Request) -> (r: FirstFrame)
    ensures
        r == first_frame_of(request@.action.action_type),
{
    match request.action.action_type {
        ActionType::Connect => FirstFrame::Connect,
        ActionType::Invoke => FirstFrame::Invoke,
        _ => FirstFrame::Reject,
    }
}

/// The answer to a first frame that neither connects nor invokes.
pub fn reject_first_frame(request: &Request) -> (r: Response)
    ensures
        r@.head.version.major == CURRENT_MAJOR,
        r@.head.version.patch == CURRENT_PATCH,
        r@.head.caller == request@.head.caller,
        r@.status == StatusType::NeedConnection,
        r@.body.len() == 0,
{
    Response::with_status(request.head.caller.as_str(), StatusType::NeedConnection)
}

/// Serves a connect handshake: binds `writer` to the caller's name when the
/// name is free and answers `OK`; otherwise answers `AlreadyConnected` and
/// hands the writer back, so that the connection can be closed.
pub fn connect<W>(clients: &mut ClientRegistry<W>, request: &Request, writer: W) -> (r: (
    Response,
    Option<W>,
))
    requires
        old(clients).wf(),
    ensures
        final(clients).wf(),
        r.0@.head.version.major == CURRENT_MAJOR,
        r.0@.head.version.patch == CURRENT_PATCH,
        r.0@.head.caller == request@.head.caller,
        r.0@.body.len() == 0,
        !old(clients)@.contains_key(request@.head.caller) ==> r.0@.status == StatusType::OK
            && r.1 is None && final(clients)@ == old(clients)@.insert(
            request@.head.caller,
            writer,
        ),
        old(clients)@.contains_key(request@.head.caller) ==> r.0@.status
            == StatusType::AlreadyConnected && r.1 == Some(writer) && final(clients)@ == old(
            clients,
        )@,
{
    let name = request.head.caller.clone();
    match clients.try_insert(name, writer) {
        Ok(()) => (Response::new_ok(request.head.caller.as_str()), None),
        Err(w) => (
            Response::with_status(request.head.caller.as_str(), StatusType::AlreadyConnected),
            Some(w),
        ),
    }
}

} // verus!
