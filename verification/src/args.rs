//! The configuration of a run and the argument list that it gives the
//! synchronisation tool.
//!
//! The tool reads its arguments by position, so their order is part of the
//! contract: the fixed flags, the reference for hard links, the excludes for
//! caches, the excludes of the caller, the arguments passed through, and at
//! the end the source and the target.

use vstd::prelude::*;
use vstd::string::*;
use crate::model::{view_of, views};
use crate::split::{split_on, split_text};
use crate::versioning::{ResolvedVersioning, Versioning};

verus! {

/// What a run was asked to do, with texts of type `T`. It is built once and
/// never changed: the path of a new snapshot is carried beside it, not
/// written into it.
#[derive(Debug, Clone, PartialEq, Eq)]
pub struct Config<T> {
    /// The directory to back up.
    pub source_dir: T,
    /// The directory to back up to: the root of the snapshots where the run
    /// is versioned.
    pub target_dir: T,
    /// Whether each run writes a snapshot of its own.
    pub versioned: bool,
    /// Whether the excludes for caches are left out.
    pub no_exclude_caches: bool,
    /// Patterns to exclude, separated by commas.
    pub exclude_override: Option<T>,
    /// Arguments handed to the tool as they are, separated by single spaces.
    pub pass_args: Option<T>,
}

/// The configuration as the caller holds it.
pub type RunConfig = Config<String>;

impl<T: View> View for Config<T> {
    type V = Config<T::V>;

    open spec fn view(&self) -> Config<T::V> {
        Config {
            source_dir: self.source_dir@,
            target_dir: self.target_dir@,
            versioned: self.versioned,
            no_exclude_caches: self.no_exclude_caches,
            exclude_override: match self.exclude_override {
                Some(t) => Some(t@),
                None => None,
            },
            pass_args: match self.pass_args {
                Some(t) => Some(t@),
                None => None,
            },
        }
    }
}

/// A configuration that cannot be run.
#[derive(Debug, Clone, Copy, PartialEq, Eq, Structural)]
pub enum ConfigError {
    /// The source path is empty.
    MissingSource,
    /// The target path is empty.
    MissingTarget,
}

impl ConfigError {
    /// The text that reports this error.
    pub open spec fn text(self) -> Seq<char> {
        match self {
            ConfigError::MissingSource => "no source directory is given"@,
            ConfigError::MissingTarget => "no target directory is given"@,
        }
    }

    /// The text that reports this error.
    pub fn message(self) -> (text: String)
        ensures
            text@ == self.text(),
    {
        match self {
            ConfigError::MissingSource => "no source directory is given".to_owned(),
            ConfigError::MissingTarget => "no target directory is given".to_owned(),
        }
    }
}

/// The fault of a configuration, if it has one. The source is looked at
/// first.
pub open spec fn config_fault(config: Config<Seq<char>>) -> Option<ConfigError> {
    if config.source_dir.len() == 0 {
        Some(ConfigError::MissingSource)
    } else if config.target_dir.len() == 0 {
        Some(ConfigError::MissingTarget)
    } else {
        None
    }
}

/// The flags of every run: archive mode, one file system, partial files kept
/// with progress shown, and statistics at the end.
pub open spec fn base_flags() -> Seq<Seq<char>> {
    seq!["-axP"@, "--stats"@]
}

/// The flag that names the snapshot to link against.
pub open spec fn link_flags(link: Option<Seq<char>>) -> Seq<Seq<char>> {
    match link {
        Some(path) => seq!["--link-dest="@ + path],
        None => Seq::empty(),
    }
}

/// The excludes for caches: every path with a component that holds `Cache`
/// or `cache`.
pub open spec fn cache_excludes(no_exclude_caches: bool) -> Seq<Seq<char>> {
    if no_exclude_caches {
        Seq::empty()
    } else {
        seq!["--exclude"@, "**Cache**"@, "--exclude"@, "**cache**"@]
    }
}

/// Each pattern behind an `--exclude` of its own.
pub open spec fn exclude_pairs(patterns: Seq<Seq<char>>) -> Seq<Seq<char>> {
    Seq::new(
        2 * patterns.len(),
        |i: int|
            if i % 2 == 0 {
                "--exclude"@
            } else {
                patterns[i / 2]
            },
    )
}

/// The excludes of the caller: the list is cut at every comma.
pub open spec fn override_excludes(list: Option<Seq<char>>) -> Seq<Seq<char>> {
    match list {
        Some(text) => exclude_pairs(split_on(text, ',')),
        None => Seq::empty(),
    }
}

/// The arguments passed through: the text is cut at every space, and nothing
/// else is done to it. Two spaces in a row give an empty argument, and no
/// quoting keeps a space inside an argument.
pub open spec fn pass_through(text: Option<Seq<char>>) -> Seq<Seq<char>> {
    match text {
        Some(text) => split_on(text, ' '),
        None => Seq::empty(),
    }
}

/// The reference for hard links that a run uses: the one that was resolved,
/// where the run is versioned.
pub open spec fn link_of(
    config: Config<Seq<char>>,
    versioning: Option<Versioning<Seq<char>>>,
) -> Option<Seq<char>> {
    match versioning {
        Some(v) => if config.versioned {
            v.link_reference
        } else {
            None
        },
        None => None,
    }
}

/// The target that a run writes to: the new snapshot where the run is
/// versioned and one was resolved, else the target of the configuration.
pub open spec fn target_of(
    config: Config<Seq<char>>,
    versioning: Option<Versioning<Seq<char>>>,
) -> Seq<char> {
    match versioning {
        Some(v) => if config.versioned {
            v.new_snapshot_path
        } else {
            config.target_dir
        },
        None => config.target_dir,
    }
}

/// The argument list of a run.
pub open spec fn arguments(
    config: Config<Seq<char>>,
    versioning: Option<Versioning<Seq<char>>>,
) -> Seq<Seq<char>> {
    base_flags() + link_flags(link_of(config, versioning)) + cache_excludes(
        config.no_exclude_caches,
    ) + override_excludes(config.exclude_override) + pass_through(config.pass_args) + seq![
        config.source_dir,
        target_of(config, versioning),
    ]
}

/// The source and the target are the last two arguments, whatever else the
/// configuration asks for, and the fixed flags are the first two.
pub proof fn lemma_arguments_ends(
    config: Config<Seq<char>>,
    versioning: Option<Versioning<Seq<char>>>,
)
    ensures
        arguments(config, versioning).len() >= 4,
        arguments(config, versioning)[0] == "-axP"@,
        arguments(config, versioning)[1] == "--stats"@,
        arguments(config, versioning)[arguments(config, versioning).len() - 2]
            == config.source_dir,
        arguments(config, versioning).last() == target_of(config, versioning),
{
}

/// Checks that a configuration names a source and a target.
pub fn check_config(config: &RunConfig) -> (res: Result<(), ConfigError>)
    ensures
        res is Ok <==> config_fault(config@) is None,
        res matches Err(e) ==> config_fault(config@) == Some(e),
{
    if config.source_dir.as_str().is_empty() {
        Err(ConfigError::MissingSource)
    } else if config.target_dir.as_str().is_empty() {
        Err(ConfigError::MissingTarget)
    } else {
        Ok(())
    }
}

/// Adds one argument.
fn push_arg(args: &mut Vec<String>, arg: String)
    ensures
        views(final(args)@) == views(old(args)@).push(arg@),
{
    args.push(arg);
    assert(views(args@) =~= views(old(args)@).push(arg@));
}

/// Adds each pattern behind an `--exclude` of its own.
fn push_excludes(args: &mut Vec<String>, patterns: &Vec<String>)
    ensures
        views(final(args)@) == views(old(args)@) + exclude_pairs(views(patterns@)),
{
    let ghost before = views(args@);
    let ghost all = views(patterns@);
    let mut i: usize = 0;
    while i < patterns.len()
        invariant
            0 <= i <= patterns.len(),
            all == views(patterns@),
            views(args@) == before + exclude_pairs(all.take(i as int)),
        decreases patterns.len() - i,
    {
        push_arg(args, "--exclude".to_owned());
        push_arg(args, patterns[i].clone());
        i += 1;
    }
}

/// Adds the arguments in `more`, in order.
fn push_all(args: &mut Vec<String>, more: &Vec<String>)
    ensures
        views(final(args)@) == views(old(args)@) + views(more@),
{
    let ghost before = views(args@);
    let ghost all = views(more@);
    let mut i: usize = 0;
    while i < more.len()
        invariant
            0 <= i <= more.len(),
            all == views(more@),
            views(args@) == before + all.take(i as int),
        decreases more.len() - i,
    {
        push_arg(args, more[i].clone());
        proof {
            assert(all[i as int] == more[i as int]@);
            assert(views(args@) =~= before + all.take(i + 1));
        }
        i += 1;
    }
}

/// Builds the argument list of a run from its configuration and, where the
/// run is versioned, from what was resolved for it.
pub fn build_args(config: &RunConfig, versioning: Option<&ResolvedVersioning>) -> (args: Vec<
    String,
>)
    ensures
        views(args@) == arguments(config@, view_of(versioning)),
{
    let mut args: Vec<String> = Vec::new();
    push_arg(&mut args, "-axP".to_owned());
    push_arg(&mut args, "--stats".to_owned());
    let mut target: &str = config.target_dir.as_str();
    if config.versioned {
        match versioning {
            Some(resolved) => {
                target = resolved.new_snapshot_path.as_str();
                match &resolved.link_reference {
                    Some(path) => {
                        push_arg(&mut args, "--link-dest=".to_owned().concat(path.as_str()));
                    },
                    None => {},
                }
            },
            None => {},
        }
    }
    if !config.no_exclude_caches {
        push_arg(&mut args, "--exclude".to_owned());
        push_arg(&mut args, "**Cache**".to_owned());
        push_arg(&mut args, "--exclude".to_owned());
        push_arg(&mut args, "**cache**".to_owned());
    }
    match &config.exclude_override {
        Some(list) => {
            let patterns = split_text(list.as_str(), ',');
            push_excludes(&mut args, &patterns);
        },
        None => {},
    }
    match &config.pass_args {
        Some(text) => {
            let passed = split_text(text.as_str(), ' ');
            push_all(&mut args, &passed);
        },
        None => {},
    }
    push_arg(&mut args, config.source_dir.clone());
    push_arg(&mut args, target.to_owned());
    args
}

} // verus!
