//! Shutting the machine down, behind a trait so that automation never does.

use vstd::prelude::*;
use vstd::string::StringExecFns;

verus! {

#[derive(Debug)]
pub struct PowerError {
    pub message: String,
}

/// Performs the local shutdown. Implementations call the operating system;
/// nothing is promised of their outcome, and the host answers both.
pub trait PowerController {
    fn shutdown(&mut self) -> Result<(), PowerError>;
}

/// A controller that only records the request, for development and tests.
pub struct MockPowerController {
    requested: bool,
    fail: bool,
}

impl MockPowerController {
    pub closed spec fn requested(&self) -> bool {
        self.requested
    }

    pub closed spec fn fails(&self) -> bool {
        self.fail
    }

    /// A controller whose shutdown is rejected.
    pub fn failing() -> (controller: Self)
        ensures
            !controller.requested(),
            controller.fails(),
    {
        MockPowerController { requested: false, fail: true }
    }

    /// Whether a shutdown was requested.
    pub fn was_requested(&self) -> (requested: bool)
        ensures
            requested == self.requested(),
    {
        self.requested
    }
}

impl Default for MockPowerController {
    fn default() -> (controller: Self)
        ensures
            !controller.requested(),
            !controller.fails(),
    {
        MockPowerController { requested: false, fail: false }
    }
}

impl PowerController for MockPowerController {
    fn shutdown(&mut self) -> (r: Result<(), PowerError>)
        ensures
            final(self).requested(),
            final(self).fails() == old(self).fails(),
            r is Err <==> old(self).fails(),
            r matches Err(e) ==> e.message@ == "mock shutdown rejected"@,
    {
        self.requested = true;
        if self.fail {
            Err(PowerError { message: String::from_str("mock shutdown rejected") })
        } else {
            Ok(())
        }
    }
}

} // verus!
