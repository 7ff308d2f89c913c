//! How a run ended, and the exit code that reports it.
//!
//! A tool that exits hands its own code on, whatever it is: a failed transfer
//! is the tool's failure, not an error of this program. A tool that a signal
//! ended has no code, and a run that failed before or beside the tool never
//! had one: each of these gets a code of its own that the tool does not use.

use vstd::prelude::*;

verus! {

/// The exit code of a run whose tool was ended by a signal.
pub const EXIT_ABNORMAL: u8 = 70;

/// The exit code of a run with an unusable configuration.
pub const EXIT_CONFIG: u8 = 64;

/// The exit code of a run that found an entry under the target root that is
/// no snapshot.
pub const EXIT_INVALID_ENTRY: u8 = 65;

/// The exit code of a run whose tool could not be started.
pub const EXIT_SPAWN: u8 = 71;

/// The exit code of a run whose tool wrote output that is not UTF-8.
pub const EXIT_STREAM: u8 = 76;

/// How the tool ended.
#[derive(Debug, Clone, Copy, PartialEq, Eq, Structural)]
pub enum RunResult {
    /// The tool exited with this code.
    Exited(u8),
    /// The tool ended without a code: a signal ended it.
    Abnormal,
}

/// Why a run failed without a result of the tool.
#[derive(Debug, Clone, Copy, PartialEq, Eq, Structural)]
pub enum FailureKind {
    /// The configuration names no source or no target.
    Config,
    /// An entry under the target root is no snapshot.
    InvalidSnapshotEntry,
    /// The tool could not be started.
    Spawn,
    /// The tool wrote output that is not UTF-8.
    StreamDecode,
}

/// What the system keeps of an exit code: its remainder modulo 256, which is
/// its low eight bits.
pub open spec fn low_byte(code: i32) -> u8 {
    (code as int % 256) as u8
}

/// The result that a status of the tool stands for.
pub open spec fn result_of(code: Option<i32>) -> RunResult {
    match code {
        Some(c) => RunResult::Exited(low_byte(c)),
        None => RunResult::Abnormal,
    }
}

impl RunResult {
    /// The exit code that reports this result.
    pub open spec fn code(self) -> u8 {
        match self {
            RunResult::Exited(c) => c,
            RunResult::Abnormal => EXIT_ABNORMAL,
        }
    }

    /// The result that a status of the tool stands for: its code where it
    /// has one.
    pub fn from_status(code: Option<i32>) -> (res: RunResult)
        ensures
            res == result_of(code),
    {
        match code {
            Some(c) => {
                let rest = c % 256;
                let low = if rest < 0 {
                    rest + 256
                } else {
                    rest
                };
                RunResult::Exited(low as u8)
            },
            None => RunResult::Abnormal,
        }
    }

    /// The exit code that reports this result.
    pub fn exit_code(self) -> (code: u8)
        ensures
            code == self.code(),
    {
        match self {
            RunResult::Exited(c) => c,
            RunResult::Abnormal => EXIT_ABNORMAL,
        }
    }

    /// Whether the tool exited with code zero.
    pub fn is_success(self) -> (ok: bool)
        ensures
            ok == (self == RunResult::Exited(0)),
    {
        match self {
            RunResult::Exited(c) => c == 0,
            RunResult::Abnormal => false,
        }
    }
}

impl FailureKind {
    /// The exit code that reports this failure.
    pub open spec fn code(self) -> u8 {
        match self {
            FailureKind::Config => EXIT_CONFIG,
            FailureKind::InvalidSnapshotEntry => EXIT_INVALID_ENTRY,
            FailureKind::Spawn => EXIT_SPAWN,
            FailureKind::StreamDecode => EXIT_STREAM,
        }
    }

    /// The exit code that reports this failure.
    pub fn exit_code(self) -> (code: u8)
        ensures
            code == self.code(),
    {
        match self {
            FailureKind::Config => EXIT_CONFIG,
            FailureKind::InvalidSnapshotEntry => EXIT_INVALID_ENTRY,
            FailureKind::Spawn => EXIT_SPAWN,
            FailureKind::StreamDecode => EXIT_STREAM,
        }
    }
}

/// The code of a run tells how it ended: no failure and no signal is reported
/// as success, two different failures never share a code, and none shares the
/// code of a signal.
pub proof fn lemma_codes_distinguish(a: FailureKind, b: FailureKind)
    ensures
        a.code() != 0,
        a.code() != EXIT_ABNORMAL,
        a.code() == b.code() ==> a == b,
        RunResult::Abnormal.code() != 0,
{
}

} // verus!
