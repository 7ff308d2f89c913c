//! The snapshots under a target root: which entries are snapshots, which one
//! is the latest, and where the next one goes.
//!
//! The listing of the directory and the current minute are handed in as
//! plain values. Every entry of the listing must be a directory with a valid
//! snapshot name: the first that is not ends the run with an error that names
//! it, since a stray entry under the root is more likely a mistake of the
//! operator than something to step over.

use vstd::prelude::*;
use vstd::string::*;
use crate::model::{result_view, views};
use crate::split::chars_of;
use crate::timestamp::{
    is_snapshot_name, lemma_lex_total, lemma_lex_transitive, lex_less, local_stamp,
    SnapshotName,
};

verus! {

/// What an entry of a directory is.
#[derive(Debug, Clone, Copy, PartialEq, Eq, Structural)]
pub enum EntryKind {
    /// A directory.
    Directory,
    /// Anything else: a file, a link, a device.
    NotDirectory,
    /// The type of the entry could not be read.
    Unreadable,
}

/// An entry directly under the target root, with its name of type `T`.
#[derive(Debug, Clone, PartialEq, Eq)]
pub struct Entry<T> {
    pub name: T,
    pub kind: EntryKind,
}

/// An entry as the caller read it from the directory.
pub type DirEntryInfo = Entry<String>;

impl<T: View> View for Entry<T> {
    type V = Entry<T::V>;

    open spec fn view(&self) -> Entry<T::V> {
        Entry { name: self.name@, kind: self.kind }
    }
}

/// Why an entry is no snapshot.
#[derive(Debug, Clone, Copy, PartialEq, Eq, Structural)]
pub enum EntryFault {
    /// The entry is not a directory.
    NotADirectory,
    /// The type of the entry could not be read.
    UnreadableType,
    /// The entry is a directory whose name is not a valid snapshot name.
    NotATimestamp,
}

/// An entry under the target root that is no snapshot, with its name of type
/// `T`.
#[derive(Debug, Clone, PartialEq, Eq)]
pub struct InvalidEntry<T> {
    pub name: T,
    pub fault: EntryFault,
}

/// The error that ends a run on an entry that is no snapshot.
pub type InvalidSnapshotEntry = InvalidEntry<String>;

impl<T: View> View for InvalidEntry<T> {
    type V = InvalidEntry<T::V>;

    open spec fn view(&self) -> InvalidEntry<T::V> {
        InvalidEntry { name: self.name@, fault: self.fault }
    }
}

/// The text that reports an entry that is no snapshot. It names the entry.
pub open spec fn fault_message(e: InvalidEntry<Seq<char>>) -> Seq<char> {
    match e.fault {
        EntryFault::NotADirectory => "Directory entry "@ + e.name + " is not a directory"@,
        EntryFault::UnreadableType => "Directory entry "@ + e.name
            + " has a type that cannot be read"@,
        EntryFault::NotATimestamp => "Directory entry name "@ + e.name
            + " is not in datetime format of YYYYmmddHHMM"@,
    }
}

impl InvalidEntry<String> {
    /// The text that reports this error.
    pub fn message(&self) -> (text: String)
        ensures
            text@ == fault_message(self@),
    {
        match self.fault {
            EntryFault::NotADirectory => "Directory entry ".to_owned().concat(
                self.name.as_str(),
            ).concat(" is not a directory"),
            EntryFault::UnreadableType => "Directory entry ".to_owned().concat(
                self.name.as_str(),
            ).concat(" has a type that cannot be read"),
            EntryFault::NotATimestamp => "Directory entry name ".to_owned().concat(
                self.name.as_str(),
            ).concat(" is not in datetime format of YYYYmmddHHMM"),
        }
    }
}

/// How many earlier snapshots there must be before one of them is offered as
/// the reference for hard links. One is enough for the tool to link against,
/// and that is the default; with two, the first two runs copy everything.
#[derive(Debug, Clone, Copy, PartialEq, Eq, Structural)]
pub enum LinkThreshold {
    /// A single earlier snapshot is linked against.
    AtLeastOne,
    /// The first two runs copy everything.
    AtLeastTwo,
}

impl LinkThreshold {
    /// The number of earlier snapshots asked for.
    pub open spec fn prior_needed(self) -> nat {
        match self {
            LinkThreshold::AtLeastOne => 1,
            LinkThreshold::AtLeastTwo => 2,
        }
    }

    /// The number of earlier snapshots asked for.
    pub fn min_prior(self) -> (n: usize)
        ensures
            n == self.prior_needed(),
    {
        match self {
            LinkThreshold::AtLeastOne => 1,
            LinkThreshold::AtLeastTwo => 2,
        }
    }
}

impl Default for LinkThreshold {
    fn default() -> (t: LinkThreshold)
        ensures
            t == LinkThreshold::AtLeastOne,
    {
        LinkThreshold::AtLeastOne
    }
}

/// Where the next snapshot goes and what it links against, with paths of
/// type `T`.
#[derive(Debug, Clone, PartialEq, Eq)]
pub struct Versioning<T> {
    /// The target root joined with the current minute.
    pub new_snapshot_path: T,
    /// The path of the latest earlier snapshot, where enough of them exist.
    pub link_reference: Option<T>,
}

/// What `resolve_versioning` hands to the argument builder.
pub type ResolvedVersioning = Versioning<String>;

impl<T: View> View for Versioning<T> {
    type V = Versioning<T::V>;

    open spec fn view(&self) -> Versioning<T::V> {
        Versioning {
            new_snapshot_path: self.new_snapshot_path@,
            link_reference: match self.link_reference {
                Some(l) => Some(l@),
                None => None,
            },
        }
    }
}

/// The fault of an entry, if it has one. The kind is looked at first.
pub open spec fn entry_fault(e: Entry<Seq<char>>) -> Option<EntryFault> {
    match e.kind {
        EntryKind::Unreadable => Some(EntryFault::UnreadableType),
        EntryKind::NotDirectory => Some(EntryFault::NotADirectory),
        EntryKind::Directory => if is_snapshot_name(e.name) {
            None
        } else {
            Some(EntryFault::NotATimestamp)
        },
    }
}

/// Index of the first entry with a fault, or the number of entries.
pub open spec fn first_fault(entries: Seq<Entry<Seq<char>>>) -> int
    decreases entries.len(),
{
    if entries.len() == 0 || entry_fault(entries[0]) is Some {
        0
    } else {
        1 + first_fault(entries.drop_first())
    }
}

/// The names of the entries, in the order of the listing.
pub open spec fn names_of(entries: Seq<Entry<Seq<char>>>) -> Seq<Seq<char>> {
    entries.map_values(|e: Entry<Seq<char>>| e.name)
}

/// What scanning a listing gives: the names of its entries where all of them
/// are snapshots, else the first entry that is none.
pub open spec fn scanned(entries: Seq<Entry<Seq<char>>>) -> Result<
    Seq<Seq<char>>,
    InvalidEntry<Seq<char>>,
> {
    let k = first_fault(entries);
    if 0 <= k < entries.len() {
        Err(InvalidEntry { name: entries[k].name, fault: entry_fault(entries[k])->0 })
    } else {
        Ok(names_of(entries))
    }
}

/// The greatest of some names in the order of strings: the latest snapshot.
/// Of no names at all it is arbitrary.
pub open spec fn latest_of(names: Seq<Seq<char>>) -> Seq<char>
    decreases names.len(),
{
    if names.len() <= 1 {
        names[0]
    } else {
        let best = latest_of(names.drop_last());
        if lex_less(best, names.last()) {
            names.last()
        } else {
            best
        }
    }
}

/// `base` with `name` below it, as `std::path::Path::join` puts the two
/// together where `/` separates the components: a name that starts at the
/// root stands alone, and a separator is added unless `base` is empty or
/// ends with one.
pub open spec fn joined(base: Seq<char>, name: Seq<char>) -> Seq<char> {
    if name.len() > 0 && name[0] == '/' {
        name
    } else if base.len() == 0 || base.last() == '/' {
        base + name
    } else {
        base + seq!['/'] + name
    }
}

/// The reference for hard links: the path of the latest snapshot, where there
/// are as many snapshots as the threshold asks for.
pub open spec fn link_reference_of(
    root: Seq<char>,
    names: Seq<Seq<char>>,
    threshold: LinkThreshold,
) -> Option<Seq<char>> {
    if names.len() >= threshold.prior_needed() {
        Some(joined(root, latest_of(names)))
    } else {
        None
    }
}

/// What resolving gives for a target root, its listing and the current
/// minute.
pub open spec fn resolved(
    root: Seq<char>,
    entries: Seq<Entry<Seq<char>>>,
    now: Seq<char>,
    threshold: LinkThreshold,
) -> Result<Versioning<Seq<char>>, InvalidEntry<Seq<char>>> {
    match scanned(entries) {
        Ok(names) => Ok(
            Versioning {
                new_snapshot_path: joined(root, now),
                link_reference: link_reference_of(root, names, threshold),
            },
        ),
        Err(e) => Err(e),
    }
}

/// `first_fault` is in range, no entry before it has a fault, and where it is
/// inside the listing the entry there has one.
pub proof fn lemma_first_fault(entries: Seq<Entry<Seq<char>>>)
    ensures
        0 <= first_fault(entries) <= entries.len(),
        forall|k: int| 0 <= k < first_fault(entries) ==> entry_fault(#[trigger] entries[k]) is None,
        first_fault(entries) < entries.len() ==> entry_fault(entries[first_fault(entries)]) is Some,
    decreases entries.len(),
{
    if entries.len() > 0 && entry_fault(entries[0]) is None {
        let rest = entries.drop_first();
        lemma_first_fault(rest);
        assert forall|k: int| 0 <= k < first_fault(entries) implies entry_fault(
            #[trigger] entries[k],
        ) is None by {
            if k > 0 {
                assert(entries[k] == rest[k - 1]);
            }
        }
    }
}

/// The first fault is where the caller found it.
pub proof fn lemma_first_fault_at(entries: Seq<Entry<Seq<char>>>, i: int)
    requires
        0 <= i <= entries.len(),
        forall|k: int| 0 <= k < i ==> entry_fault(#[trigger] entries[k]) is None,
        i < entries.len() ==> entry_fault(entries[i]) is Some,
    ensures
        first_fault(entries) == i,
{
    lemma_first_fault(entries);
}

/// A listing is scanned without error exactly when every entry is a
/// directory with a valid snapshot name, and an error names an entry of the
/// listing before which there is no other fault.
pub proof fn lemma_scanned(entries: Seq<Entry<Seq<char>>>)
    ensures
        scanned(entries) is Ok <==> forall|k: int|
            0 <= k < entries.len() ==> (#[trigger] entries[k]).kind == EntryKind::Directory
                && is_snapshot_name(entries[k].name),
        scanned(entries) matches Err(e) ==> exists|k: int|
            0 <= k < entries.len() && e.name == (#[trigger] entries[k]).name && entry_fault(
                entries[k],
            ) == Some(e.fault) && first_fault(entries) == k,
{
    lemma_first_fault(entries);
}

/// The latest of some names is one of them, and none of them comes after it.
pub proof fn lemma_latest_is_maximum(names: Seq<Seq<char>>)
    requires
        names.len() >= 1,
    ensures
        names.contains(latest_of(names)),
        forall|k: int| 0 <= k < names.len() ==> !lex_less(latest_of(names), #[trigger] names[k]),
    decreases names.len(),
{
    if names.len() == 1 {
        lemma_lex_total(names[0], names[0]);
    } else {
        let front = names.drop_last();
        lemma_latest_is_maximum(front);
        let best = latest_of(front);
        let last = names.last();
        let top = latest_of(names);
        lemma_lex_total(top, last);
        lemma_lex_total(best, last);
        assert forall|k: int| 0 <= k < names.len() implies !lex_less(top, #[trigger] names[k]) by {
            if k < front.len() {
                assert(names[k] == front[k]);
                if lex_less(best, last) && lex_less(last, front[k]) {
                    lemma_lex_transitive(best, last, front[k]);
                }
            }
        }
    }
}

/// Puts `name` below `base`.
pub fn join_path(base: &str, name: &str) -> (path: String)
    ensures
        path@ == joined(base@, name@),
{
    let n = chars_of(name);
    let b = chars_of(base);
    if n.len() > 0 && n[0] == '/' {
        name.to_owned()
    } else if b.len() == 0 || b[b.len() - 1] == '/' {
        base.to_owned().concat(name)
    } else {
        proof {
            reveal_strlit("/");
        }
        base.to_owned().concat("/").concat(name)
    }
}

/// Decides whether an entry is a snapshot: a directory with a valid snapshot
/// name.
pub fn check_entry(entry: &DirEntryInfo) -> (res: Result<SnapshotName, InvalidSnapshotEntry>)
    ensures
        res is Ok <==> entry_fault(entry@) is None,
        res matches Ok(name) ==> name@ == entry.name@,
        res matches Err(e) ==> e@ == (InvalidEntry {
            name: entry.name@,
            fault: entry_fault(entry@)->0,
        }),
{
    match entry.kind {
        EntryKind::Unreadable => Err(
            InvalidEntry { name: entry.name.clone(), fault: EntryFault::UnreadableType },
        ),
        EntryKind::NotDirectory => Err(
            InvalidEntry { name: entry.name.clone(), fault: EntryFault::NotADirectory },
        ),
        EntryKind::Directory => match SnapshotName::new(entry.name.as_str()) {
            Some(name) => Ok(name),
            None => Err(
                InvalidEntry { name: entry.name.clone(), fault: EntryFault::NotATimestamp },
            ),
        },
    }
}

/// The snapshots found under a target root, in the order of the listing.
#[derive(Debug, Clone, PartialEq, Eq)]
pub struct SnapshotSet {
    names: Vec<SnapshotName>,
}

impl View for SnapshotSet {
    type V = Seq<Seq<char>>;

    closed spec fn view(&self) -> Seq<Seq<char>> {
        views(self.names@)
    }
}

impl SnapshotSet {
    /// Scans a listing: every entry must be a snapshot, and the first that is
    /// not is the error.
    pub fn scan(entries: &[DirEntryInfo]) -> (res: Result<SnapshotSet, InvalidSnapshotEntry>)
        ensures
            result_view(res) == scanned(views(entries@)),
    {
        let ghost all = views(entries@);
        let mut names: Vec<SnapshotName> = Vec::new();
        let mut i: usize = 0;
        while i < entries.len()
            invariant
                all == views(entries@),
                0 <= i <= entries.len(),
                names.len() == i,
                forall|k: int| 0 <= k < i ==> entry_fault(#[trigger] all[k]) is None,
                forall|k: int| 0 <= k < i ==> (#[trigger] names[k])@ == all[k].name,
            decreases entries.len() - i,
        {
            match check_entry(&entries[i]) {
                Ok(name) => {
                    names.push(name);
                },
                Err(e) => {
                    proof {
                        lemma_first_fault_at(all, i as int);
                    }
                    return Err(e);
                },
            }
            i += 1;
        }
        proof {
            lemma_first_fault_at(all, all.len() as int);
            assert(views(names@) =~= names_of(all));
        }
        Ok(SnapshotSet { names })
    }

    /// The number of snapshots.
    pub fn len(&self) -> (n: usize)
        ensures
            n == self@.len(),
    {
        self.names.len()
    }

    /// Whether there is no snapshot.
    pub fn is_empty(&self) -> (b: bool)
        ensures
            b == (self@.len() == 0),
    {
        self.names.len() == 0
    }

    /// The latest snapshot: the greatest name in the order of strings. `None`
    /// where there is no snapshot.
    pub fn latest(&self) -> (res: Option<&SnapshotName>)
        ensures
            res is Some <==> self@.len() > 0,
            res matches Some(name) ==> name@ == latest_of(self@) && self@.contains(name@)
                && forall|k: int| 0 <= k < self@.len() ==> !lex_less(name@, #[trigger] self@[k]),
    {
        if self.names.len() == 0 {
            return None;
        }
        let ghost all = views(self.names@);
        let mut best: &SnapshotName = &self.names[0];
        let mut i: usize = 1;
        while i < self.names.len()
            invariant
                all == views(self.names@),
                1 <= i <= self.names.len(),
                best@ == latest_of(all.take(i as int)),
            decreases self.names.len() - i,
        {
            let ghost grown = all.take(i + 1);
            proof {
                assert(grown.drop_last() =~= all.take(i as int));
            }
            if best.is_before(&self.names[i]) {
                best = &self.names[i];
            }
            i += 1;
        }
        proof {
            assert(all.take(self.names.len() as int) =~= all);
            lemma_latest_is_maximum(all);
        }
        Some(best)
    }
}

/// With nothing under the target root, the next snapshot goes below the root
/// and links against nothing.
pub proof fn lemma_no_snapshot_no_link(root: Seq<char>, now: Seq<char>, threshold: LinkThreshold)
    ensures
        resolved(root, Seq::empty(), now, threshold) == Ok::<
            Versioning<Seq<char>>,
            InvalidEntry<Seq<char>>,
        >(Versioning { new_snapshot_path: joined(root, now), link_reference: None }),
{
    assert(names_of(Seq::<Entry<Seq<char>>>::empty()) =~= Seq::<Seq<char>>::empty());
}

/// Where every entry is a snapshot and there are as many as the threshold
/// asks for, the reference for hard links is the path of one of them, and
/// none of them is later than that one.
pub proof fn lemma_link_is_the_latest(
    root: Seq<char>,
    entries: Seq<Entry<Seq<char>>>,
    now: Seq<char>,
    threshold: LinkThreshold,
)
    requires
        forall|k: int| 0 <= k < entries.len() ==> entry_fault(#[trigger] entries[k]) is None,
        entries.len() >= threshold.prior_needed(),
    ensures
        resolved(root, entries, now, threshold) matches Ok(v) && v.link_reference == Some(
            joined(root, latest_of(names_of(entries))),
        ),
        exists|k: int|
            0 <= k < entries.len() && (#[trigger] entries[k]).name == latest_of(
                names_of(entries),
            ),
        forall|k: int|
            0 <= k < entries.len() ==> !lex_less(
                latest_of(names_of(entries)),
                (#[trigger] entries[k]).name,
            ),
{
    lemma_first_fault_at(entries, entries.len() as int);
    let names = names_of(entries);
    lemma_latest_is_maximum(names);
    let w = choose|w: int| 0 <= w < names.len() && names[w] == latest_of(names);
    assert(entries[w].name == latest_of(names));
    assert forall|k: int| 0 <= k < entries.len() implies !lex_less(
        latest_of(names),
        (#[trigger] entries[k]).name,
    ) by {
        assert(names[k] == entries[k].name);
    }
}

/// Resolves the versioning of a run: the listing of the target root is
/// scanned, the next snapshot is placed at the root joined with `now`, and the
/// latest earlier snapshot, where the threshold is met, becomes the reference
/// for hard links. Whether a snapshot named `now` exists already is not looked
/// at: two runs in one minute write to the same directory.
pub fn resolve_versioning(
    target_root: &str,
    entries: &[DirEntryInfo],
    now: &str,
    threshold: LinkThreshold,
) -> (res: Result<ResolvedVersioning, InvalidSnapshotEntry>)
    ensures
        result_view(res) == resolved(target_root@, views(entries@), now@, threshold),
{
    match SnapshotSet::scan(entries) {
        Ok(set) => {
            let new_snapshot_path = join_path(target_root, now);
            let link_reference = if set.len() >= threshold.min_prior() {
                match set.latest() {
                    Some(name) => Some(join_path(target_root, name.as_str())),
                    None => None,
                }
            } else {
                None
            };
            Ok(Versioning { new_snapshot_path, link_reference })
        },
        Err(e) => Err(e),
    }
}

/// Resolves the versioning of a run at the current minute of local time: the
/// result is that of `resolve_versioning` for whatever minute the clock gave.
pub fn resolve_versioning_now(
    target_root: &str,
    entries: &[DirEntryInfo],
    threshold: LinkThreshold,
) -> (res: Result<ResolvedVersioning, InvalidSnapshotEntry>)
    ensures
        exists|now: Seq<char>|
            result_view(res) == #[trigger] resolved(
                target_root@,
                views(entries@),
                now,
                threshold,
            ),
{
    let now = local_stamp();
    resolve_versioning(target_root, entries, now.as_str(), threshold)
}

} // verus!
