//! The plan of a run: from the configuration, the listing of the target root
//! and the current minute to the argument list of the tool.

use vstd::prelude::*;
use vstd::string::*;
use crate::args::{
    arguments, build_args, check_config, config_fault, Config, ConfigError, RunConfig,
};
use crate::timestamp::local_stamp;
use crate::model::views;
use crate::outcome::FailureKind;
use crate::versioning::{
    fault_message, resolve_versioning, resolved, DirEntryInfo, Entry, InvalidEntry,
    LinkThreshold,
};

verus! {

/// Why no plan could be made, with texts of type `T`.
#[derive(Debug, Clone, PartialEq, Eq)]
pub enum PlanFailure<T> {
    /// The configuration cannot be run.
    Config(ConfigError),
    /// An entry under the target root is no snapshot.
    InvalidSnapshotEntry(InvalidEntry<T>),
}

/// The error of `plan_run`.
pub type PlanError = PlanFailure<String>;

impl<T: View> View for PlanFailure<T> {
    type V = PlanFailure<T::V>;

    open spec fn view(&self) -> PlanFailure<T::V> {
        match self {
            PlanFailure::Config(e) => PlanFailure::Config(*e),
            PlanFailure::InvalidSnapshotEntry(e) => PlanFailure::InvalidSnapshotEntry(e@),
        }
    }
}

/// The text that reports why no plan could be made.
pub open spec fn failure_message(e: PlanFailure<Seq<char>>) -> Seq<char> {
    match e {
        PlanFailure::Config(c) => c.text(),
        PlanFailure::InvalidSnapshotEntry(i) => fault_message(i),
    }
}

impl PlanFailure<String> {
    /// The text that reports this error.
    pub fn message(&self) -> (text: String)
        ensures
            text@ == failure_message(self@),
    {
        match self {
            PlanFailure::Config(c) => c.message(),
            PlanFailure::InvalidSnapshotEntry(i) => i.message(),
        }
    }

    /// The kind of failure that this error is reported as.
    pub fn kind(&self) -> (kind: FailureKind)
        ensures
            kind == match self@ {
                PlanFailure::Config(_) => FailureKind::Config,
                PlanFailure::InvalidSnapshotEntry(_) => FailureKind::InvalidSnapshotEntry,
            },
    {
        match self {
            PlanFailure::Config(_) => FailureKind::Config,
            PlanFailure::InvalidSnapshotEntry(_) => FailureKind::InvalidSnapshotEntry,
        }
    }
}

/// The plan of a run. The configuration is checked first. A run that is not
/// versioned does not look at the listing; a versioned one resolves its
/// versioning below the configured target, and writes to the new snapshot.
pub open spec fn planned(
    config: Config<Seq<char>>,
    entries: Seq<Entry<Seq<char>>>,
    now: Seq<char>,
    threshold: LinkThreshold,
) -> Result<Seq<Seq<char>>, PlanFailure<Seq<char>>> {
    match config_fault(config) {
        Some(e) => Err(PlanFailure::Config(e)),
        None => if config.versioned {
            match resolved(config.target_dir, entries, now, threshold) {
                Ok(v) => Ok(arguments(config, Some(v))),
                Err(e) => Err(PlanFailure::InvalidSnapshotEntry(e)),
            }
        } else {
            Ok(arguments(config, None))
        },
    }
}

/// A plan or its failure, as a mathematical value.
pub open spec fn plan_view(res: Result<Vec<String>, PlanError>) -> Result<
    Seq<Seq<char>>,
    PlanFailure<Seq<char>>,
> {
    match res {
        Ok(args) => Ok(views(args@)),
        Err(e) => Err(e@),
    }
}

/// Whether a plan can be made does not depend on the minute, and neither does
/// the failure.
pub proof fn lemma_failure_ignores_the_clock(
    config: Config<Seq<char>>,
    entries: Seq<Entry<Seq<char>>>,
    now: Seq<char>,
    later: Seq<char>,
    threshold: LinkThreshold,
)
    ensures
        planned(config, entries, now, threshold) is Err <==> planned(
            config,
            entries,
            later,
            threshold,
        ) is Err,
        planned(config, entries, now, threshold) is Err ==> planned(
            config,
            entries,
            now,
            threshold,
        ) == planned(config, entries, later, threshold),
{
}

/// Plans a run at the minute `now`.
pub fn plan_run(
    config: &RunConfig,
    entries: &[DirEntryInfo],
    now: &str,
    threshold: LinkThreshold,
) -> (res: Result<Vec<String>, PlanError>)
    ensures
        plan_view(res) == planned(config@, views(entries@), now@, threshold),
{
    match check_config(config) {
        Ok(()) => {},
        Err(e) => {
            return Err(PlanFailure::Config(e));
        },
    }
    if config.versioned {
        match resolve_versioning(config.target_dir.as_str(), entries, now, threshold) {
            Ok(v) => Ok(build_args(config, Some(&v))),
            Err(e) => Err(PlanFailure::InvalidSnapshotEntry(e)),
        }
    } else {
        Ok(build_args(config, None))
    }
}

/// Plans a run at the current minute of local time: the plan is that of
/// `plan_run` for whatever minute the clock gave.
pub fn plan_run_now(
    config: &RunConfig,
    entries: &[DirEntryInfo],
    threshold: LinkThreshold,
) -> (res: Result<Vec<String>, PlanError>)
    ensures
        exists|now: Seq<char>|
            plan_view(res) == #[trigger] planned(config@, views(entries@), now, threshold),
{
    let now = local_stamp();
    plan_run(config, entries, now.as_str(), threshold)
}

} // verus!
