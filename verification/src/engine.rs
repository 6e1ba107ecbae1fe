//! The outcome of opening a Windows Filtering Platform engine session.
use vstd::prelude::*;

verus! {

/// Errors of the WFP engine, with the status code the API returned.
#[derive(Debug, Clone, Copy, PartialEq, Eq, Structural)]
pub enum WfpError {
    EngineOpenFailed(u32),
    EngineCloseFailed(u32),
    CalloutRegisterFailed(u32),
    FilterAddFailed(u32),
}

/// A WFP engine session, by the raw value of its handle.
#[derive(Debug, PartialEq, Eq, Structural)]
pub struct WfpEngine {
    handle: usize,
}

impl WfpEngine {
    /// The raw handle of the session.
    pub closed spec fn spec_handle(&self) -> usize {
        self.handle
    }

    /// The session that an engine-open call gave: `status` 0 means success
    /// and `handle` is the new session; any other status is the error.
    pub fn from_open_status(status: u32, handle: usize) -> (r: Result<WfpEngine, WfpError>)
        ensures
            status != 0 ==> r == Err::<WfpEngine, WfpError>(WfpError::EngineOpenFailed(status)),
            status == 0 ==> (r matches Ok(e) && e.spec_handle() == handle),
    {
        if status != 0 {
            return Err(WfpError::EngineOpenFailed(status));
        }
        Ok(WfpEngine { handle })
    }

    /// The raw handle, for use in other WFP calls.
    pub fn handle(&self) -> (r: usize)
        ensures
            r == self.spec_handle(),
    {
        self.handle
    }
}

} // verus!
