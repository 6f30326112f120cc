//! Errors of emitting and broadcasting.
use vstd::prelude::*;
use crate::string_map::owned;

verus! {

/// Why an event could not be emitted.
#[derive(Debug, Clone, Copy, PartialEq, Eq, Structural)]
pub enum EmitError {
    EmptyEventName,
    BroadcastError,
}

/// The message of an emit error.
pub open spec fn emit_error_message(e: EmitError) -> Seq<char> {
    match e {
        EmitError::EmptyEventName => "Event name cannot be empty"@,
        EmitError::BroadcastError => "Broadcast failed"@,
    }
}

impl EmitError {
    /// The error's message, as `Display` shows it.
    pub fn to_string(&self) -> (s: String)
        ensures
            s@ == emit_error_message(*self),
    {
        match self {
            EmitError::EmptyEventName => owned("Event name cannot be empty"),
            EmitError::BroadcastError => owned("Broadcast failed"),
        }
    }
}

/// A broadcast failed.
#[derive(Debug, Clone, Copy, PartialEq, Eq, Structural)]
pub struct BroadcastError;

impl BroadcastError {
    /// The error's message, as `Display` shows it.
    pub fn to_string(&self) -> (s: String)
        ensures
            s@ == "Broadcast failed"@,
    {
        owned("Broadcast failed")
    }
}

impl From<BroadcastError> for EmitError {
    fn from(_e: BroadcastError) -> (r: EmitError) {
        EmitError::BroadcastError
    }
}

impl vstd::std_specs::convert::FromSpecImpl<BroadcastError> for EmitError {
    open spec fn obeys_from_spec() -> bool {
        true
    }

    open spec fn from_spec(_e: BroadcastError) -> EmitError {
        EmitError::BroadcastError
    }
}

} // verus!
