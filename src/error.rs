//! Errors raised while decoding frames and their sections.
use vstd::prelude::*;

verus! {

/// Why a byte sequence is not a well-formed frame or frame section.
#[derive(Clone, Copy, Debug, PartialEq, Eq, Structural)]
pub enum Error {
    InvalidRequest,
    InvalidHead,
    InvalidAction,
    InvalidBody,
    InvalidResponse,
    InvalidStatus,
    InvalidActionType,
    InvalidCall,
}

} // verus!
