//! Errors of the daemon's RPC protocol; the wire form (a `code` and a
//! `message`) is written by the daemon's serialisation layer.
use vstd::prelude::*;

verus! {

#[derive(Debug, Clone, PartialEq, Eq)]
pub enum RpcError {
    Unimplemented(String),
    NotFound(String),
    InvalidArgument(String),
    Io(String),
    Internal(String),
}

} // verus!
