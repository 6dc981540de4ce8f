use vstd::prelude::*;
use vstd::string::StringExecFns;

verus! {

/// Record of a failed operation: the underlying failure, the phase the
/// engine was in ("executing command", "replaying events", ...), and a
/// label for the kind of operation that was being executed.
#[derive(Debug)]
pub struct FailureOutcome<F> {
    pub source: F,
    pub context: String,
    pub command_type: String,
}

impl<F> FailureOutcome<F> {
    pub fn new(source: F, context: &str, command_type: &str) -> (r: Self)
        ensures
            r.source == source,
            r.context@ == context@,
            r.command_type@ == command_type@,
    {
        FailureOutcome {
            source,
            context: String::from_str(context),
            command_type: String::from_str(command_type),
        }
    }

    /// A readable account of where the failure happened.
    pub fn describe(&self) -> (r: String)
        ensures
            r@ == "Error while "@ + self.context@ + " "@ + self.command_type@,
    {
        let mut s = String::from_str("Error while ");
        s.append(self.context.as_str());
        s.append(" ");
        s.append(self.command_type.as_str());
        s
    }
}

/// The two top-level failure kinds of the engine.
///
/// `CommandFailure` means the domain itself rejected the operation; the
/// live state and the log were left untouched.  `SystemFailure` means the
/// machinery around the domain failed (replay, append); the live state is
/// likewise untouched, and a replay failure prevents the engine from being
/// constructed at all.
#[derive(Debug)]
pub enum MemImgError<F> {
    CommandFailure(FailureOutcome<F>),
    SystemFailure(FailureOutcome<F>),
}

} // verus!
