//! Process exit codes of commands.
use vstd::prelude::*;

verus! {

#[derive(Debug, Clone, Copy, PartialEq, Eq, Structural)]
pub enum ExitCode {
    Success,
    Failure,
    InvalidArgs,
    Cancel,
}

/// The process status of each exit code.
pub open spec fn code_of(e: ExitCode) -> i32 {
    match e {
        ExitCode::Success => 0,
        ExitCode::Failure => 1,
        ExitCode::InvalidArgs => 2,
        ExitCode::Cancel => 130,
    }
}

/// The exit code that a process status stands for.
pub open spec fn exit_code_of(code: i32) -> ExitCode {
    if code == 0 {
        ExitCode::Success
    } else if code == 2 {
        ExitCode::InvalidArgs
    } else if code == 130 {
        ExitCode::Cancel
    } else {
        ExitCode::Failure
    }
}

impl ExitCode {
    pub fn to_code(self) -> (r: i32)
        ensures
            r == code_of(self),
    {
        match self {
            ExitCode::Success => 0,
            ExitCode::Failure => 1,
            ExitCode::InvalidArgs => 2,
            ExitCode::Cancel => 130,
        }
    }
}

impl From<i32> for ExitCode {
    fn from(code: i32) -> (r: ExitCode) {
        if code == 0 {
            ExitCode::Success
        } else if code == 2 {
            ExitCode::InvalidArgs
        } else if code == 130 {
            ExitCode::Cancel
        } else {
            ExitCode::Failure
        }
    }
}

impl vstd::std_specs::convert::FromSpecImpl<i32> for ExitCode {
    open spec fn obeys_from_spec() -> bool {
        true
    }

    open spec fn from_spec(v: i32) -> ExitCode {
        exit_code_of(v)
    }
}

/// Converting an exit code to its status and back gives the same exit code.
pub proof fn lemma_code_round_trip(e: ExitCode)
    ensures
        exit_code_of(code_of(e)) == e,
{
}

} // verus!
