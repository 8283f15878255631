//! Coordinator state machine of the meta group: it holds no application state;
//! cluster metadata is applied by the runtime, not through this machine.
use vstd::prelude::*;

use crate::ids::LogIndex;

verus! {

/// Opaque command for the meta group (user commands are rejected at runtime).
#[derive(Debug, Clone, Copy, Default, PartialEq, Eq, Structural)]
pub struct MetaCommand;

/// Opaque query for the meta group.
#[derive(Debug, Clone, Copy, Default, PartialEq, Eq, Structural)]
pub struct MetaQuery;

/// Empty response from the meta state machine.
#[derive(Debug, Clone, Copy, Default, PartialEq, Eq, Structural)]
pub struct MetaResponse;

/// Errors from the meta state machine (no operation fails).
#[derive(Debug, Clone, Copy, PartialEq, Eq, Structural)]
pub struct MetaError;

/// No-op application state for the meta coordinator group.
#[derive(Debug, Clone, Copy, Default, PartialEq, Eq, Structural)]
pub struct MetaStateMachine;

impl MetaStateMachine {
    /// Every command is accepted and answered with the empty response.
    pub fn apply(&mut self, index: LogIndex, command: &MetaCommand) -> (r: Result<MetaResponse, MetaError>)
        ensures
            r == Ok::<MetaResponse, MetaError>(MetaResponse),
    {
        Ok(MetaResponse)
    }

    /// Every query is answered with the empty response.
    pub fn query(&self, query: &MetaQuery) -> (r: Result<MetaResponse, MetaError>)
        ensures
            r == Ok::<MetaResponse, MetaError>(MetaResponse),
    {
        Ok(MetaResponse)
    }

    /// The snapshot of a stateless machine is empty.
    pub fn snapshot(&self) -> (r: Result<Vec<u8>, MetaError>)
        ensures
            r matches Ok(b) && b@.len() == 0,
    {
        Ok(Vec::new())
    }

    /// Any snapshot restores the (empty) state.
    pub fn restore(&mut self, snapshot: &[u8]) -> (r: Result<(), MetaError>)
        ensures
            r is Ok,
    {
        Ok(())
    }
}

} // verus!
