//! Processing status and errors of graph modules.
use vstd::prelude::*;
use super::SlotType;
use crate::enums::Enum;

verus! {

/// Status of a module after processing.
#[derive(Debug, Copy, Clone, PartialEq, Eq)]
pub enum ProcessStatus {
    /// The module keeps producing output.
    Running,
    /// The module will output silence after this many samples, provided its
    /// input is silent too.
    Tail(u64),
    /// The module has not processed anything.
    Silent,
}

impl Default for ProcessStatus {
    /// A module is running unless it says otherwise.
    fn default() -> (s: Self)
        ensures
            s == ProcessStatus::Running,
    {
        ProcessStatus::Running
    }
}

/// An error that a module reports while processing.
#[derive(Debug)]
pub enum ModuleError {
    /// A required input is missing: its slot type and a description.
    MissingRequiredInput(SlotType, String),
    /// A required output is missing: its slot type and a description.
    MissingRequiredOutput(SlotType, String),
    /// The module is not ready to process data.
    NotReady,
    /// A fatal error occurred; it carries the inner error's message.
    Fatal(String),
}

/// The text describing a module error.
pub open spec fn error_message(e: ModuleError) -> Seq<char> {
    match e {
        ModuleError::MissingRequiredInput(t, what) => "Missing required input: "@ + what@ + " of type "@
            + t.spec_name(),
        ModuleError::MissingRequiredOutput(t, what) => "Missing required output: "@ + what@ + " of type "@
            + t.spec_name(),
        ModuleError::NotReady => "Module not ready"@,
        ModuleError::Fatal(inner) => "Fatal error: "@ + inner@,
    }
}

impl ModuleError {
    /// Describes the error in words.
    pub fn message(&self) -> (s: String)
        ensures
            s@ == error_message(*self),
    {
        match self {
            ModuleError::MissingRequiredInput(t, what) => {
                let mut s = String::from_str("Missing required input: ");
                s.append(what.as_str());
                s.append(" of type ");
                let n = t.name();
                s.append(n.as_str());
                s
            },
            ModuleError::MissingRequiredOutput(t, what) => {
                let mut s = String::from_str("Missing required output: ");
                s.append(what.as_str());
                s.append(" of type ");
                let n = t.name();
                s.append(n.as_str());
                s
            },
            ModuleError::NotReady => String::from_str("Module not ready"),
            ModuleError::Fatal(inner) => {
                let mut s = String::from_str("Fatal error: ");
                s.append(inner.as_str());
                s
            },
        }
    }
}

} // verus!
