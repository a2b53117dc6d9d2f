//! The links in a worktree: what the tool does with one path of the
//! manifest, and how it compares two trees of files.

use vstd::prelude::*;
use crate::order::sorted_texts;
use crate::order::sort_texts;
use crate::text::string_views;

verus! {

#[derive(Debug, Clone, Copy, PartialEq, Eq, Structural)]
pub enum Outcome {
    /// A link to the store is already present.
    AlreadyLinked,
    /// The path was empty. The tool made a link.
    Linked,
    /// A file with the same bytes was present. The tool made a link.
    Replaced,
    /// A different file was present. The tool replaced it because of `--force`.
    Forced,
    /// A different file was present. The tool kept it.
    SkippedDivergent,
    /// The manifest gives a path, but the store does not contain it.
    MissingInStore,
}

pub open spec fn is_change_spec(o: Outcome) -> bool {
    o is Linked || o is Replaced || o is Forced
}

impl Outcome {
    /// The tool made a link.
    pub fn is_change(self) -> (b: bool)
        ensures
            b == is_change_spec(self),
    {
        match self {
            Outcome::Linked | Outcome::Replaced | Outcome::Forced => true,
            _ => false,
        }
    }
}

/// What stands at the path in the worktree.
#[derive(Debug, Clone, Copy, PartialEq, Eq, Structural)]
pub enum Present {
    /// Nothing.
    Absent,
    /// A link; `to_store` says that it points to the path in the store.
    Link { to_store: bool },
    /// A file or a directory; `same_content` says that it holds the bytes
    /// of the path in the store.
    Other { same_content: bool },
}

/// What the tool does at the path.
#[derive(Debug, Clone, Copy, PartialEq, Eq, Structural)]
pub enum Action {
    /// Nothing.
    Keep,
    /// Make the link; the path is empty.
    Link,
    /// Remove the link that is there, then make the link.
    Relink,
    /// Remove the file or the directory, then make the link.
    Replace,
}

/// The plan for one path: the action and the outcome to report.
pub open spec fn plan_spec(in_store: bool, present: Present, force: bool) -> (Action, Outcome) {
    if !in_store {
        (Action::Keep, Outcome::MissingInStore)
    } else {
        match present {
            Present::Absent => (Action::Link, Outcome::Linked),
            Present::Link { to_store } => if to_store {
                (Action::Keep, Outcome::AlreadyLinked)
            } else {
                (Action::Relink, Outcome::Linked)
            },
            Present::Other { same_content } => if same_content {
                (Action::Replace, Outcome::Replaced)
            } else if force {
                (Action::Replace, Outcome::Forced)
            } else {
                (Action::Keep, Outcome::SkippedDivergent)
            },
        }
    }
}

/// Compare one manifest path in one worktree, and decide.
///
/// The tool must not destroy a file that is different from the file in the
/// store. A file with the same bytes is safe to replace, because the bytes
/// stay at the target of the link. `in_store` says that the store holds the
/// path.
pub fn plan(in_store: bool, present: Present, force: bool) -> (r: (Action, Outcome))
    ensures
        r == plan_spec(in_store, present, force),
{
    if !in_store {
        return (Action::Keep, Outcome::MissingInStore);
    }
    match present {
        Present::Absent => (Action::Link, Outcome::Linked),
        Present::Link { to_store } => if to_store {
            (Action::Keep, Outcome::AlreadyLinked)
        } else {
            (Action::Relink, Outcome::Linked)
        },
        Present::Other { same_content } => if same_content {
            (Action::Replace, Outcome::Replaced)
        } else if force {
            (Action::Replace, Outcome::Forced)
        } else {
            (Action::Keep, Outcome::SkippedDivergent)
        },
    }
}

/// The tool does not destroy a file that is different from the file in the
/// store: it replaces a file or a directory only when the bytes are the
/// same, or when the user gave `--force`.
pub proof fn law_no_loss_without_force(in_store: bool, present: Present, force: bool)
    ensures
        plan_spec(in_store, present, force).0 is Replace ==> (present matches Present::Other {
            same_content,
        } && (same_content || force)),
{
}

/// A path that the store does not hold is left as it is.
pub proof fn law_missing_in_store_changes_nothing(present: Present, force: bool)
    ensures
        plan_spec(false, present, force) == (Action::Keep, Outcome::MissingInStore),
{
}

/// The outcome reports a change exactly when the tool makes a link.
pub proof fn law_change_means_link(in_store: bool, present: Present, force: bool)
    ensures
        is_change_spec(plan_spec(in_store, present, force).1) <==> !(plan_spec(
            in_store,
            present,
            force,
        ).0 is Keep),
{
}

/// A second pass finds the link that the first made: a path with a link to
/// the store is kept and reported as linked already.
pub proof fn law_seed_is_idempotent(force: bool)
    ensures
        plan_spec(true, Present::Link { to_store: true }, force) == (
            Action::Keep,
            Outcome::AlreadyLinked,
        ),
{
}

/// What stands at the path once the action is done: the action that makes
/// a link leaves a link to the store, and `Keep` leaves what was there.
pub open spec fn present_after(a: Action, p: Present) -> Present {
    match a {
        Action::Keep => p,
        _ => Present::Link { to_store: true },
    }
}

/// Seeding twice is seeding once: after a pass that made a link or found
/// one, a second pass, with or without `--force`, finds the link, keeps it
/// and leaves the path as it is.
pub proof fn law_second_pass_keeps_the_link(p: Present, force: bool, force2: bool)
    ensures
        ({
            let first = plan_spec(true, p, force);
            let after = present_after(first.0, p);
            (is_change_spec(first.1) || first.1 is AlreadyLinked) ==> {
                &&& plan_spec(true, after, force2) == (Action::Keep, Outcome::AlreadyLinked)
                &&& present_after(plan_spec(true, after, force2).0, after) == after
            }
        }),
{
}

/// The number of outcomes that are changes.
pub open spec fn change_count(os: Seq<Outcome>) -> nat
    decreases os.len(),
{
    if os.len() == 0 {
        0
    } else {
        change_count(os.drop_last()) + if is_change_spec(os.last()) {
            1nat
        } else {
            0nat
        }
    }
}

/// How many links the tool made.
pub fn count_changes(outcomes: &Vec<Outcome>) -> (n: usize)
    ensures
        n as nat == change_count(outcomes@),
{
    let mut n: usize = 0;
    let mut i: usize = 0;
    while i < outcomes.len()
        invariant
            i <= outcomes.len(),
            n as nat == change_count(outcomes@.take(i as int)),
            n <= i,
        decreases outcomes.len() - i,
    {
        assert(outcomes@.take(i + 1).drop_last() =~= outcomes@.take(i as int));
        if outcomes[i].is_change() {
            n += 1;
        }
        i += 1;
    }
    assert(outcomes@.take(i as int) =~= outcomes@);
    n
}

// ------------------------------------------------ comparison of two trees

/// What a path is, as far as the comparison reads it.
#[derive(Debug, Clone)]
pub enum Kind {
    /// A link, and the path it points to.
    Link { target: String },
    Dir,
    /// A file, and its length in bytes.
    File { len: u64 },
}

/// The next step of the comparison of two paths.
#[derive(Debug, Clone, Copy, PartialEq, Eq, Structural)]
pub enum Compare {
    /// The answer is known.
    Done { same: bool },
    /// Two files of one length: compare their bytes.
    Bytes,
    /// Two directories: compare their names, then each entry.
    Entries,
}

/// Two links are the same when they point to one path; a link and a path
/// that is not a link differ; so do a file and a directory, and two files
/// of different lengths.
pub open spec fn compare_spec(a: Kind, b: Kind) -> Compare {
    match (a, b) {
        (Kind::Link { target: x }, Kind::Link { target: y }) => Compare::Done { same: x@ == y@ },
        (Kind::Link { .. }, _) => Compare::Done { same: false },
        (_, Kind::Link { .. }) => Compare::Done { same: false },
        (Kind::Dir, Kind::Dir) => Compare::Entries,
        (Kind::File { len: x }, Kind::File { len: y }) => if x == y {
            Compare::Bytes
        } else {
            Compare::Done { same: false }
        },
        _ => Compare::Done { same: false },
    }
}

/// Compare two paths: for a file, the bytes; for a directory, the names and
/// then each entry. This function decides what the metadata decides.
pub fn compare_kinds(a: &Kind, b: &Kind) -> (r: Compare)
    ensures
        r == compare_spec(*a, *b),
{
    match (a, b) {
        (Kind::Link { target: x }, Kind::Link { target: y }) => Compare::Done { same: *x == *y },
        (Kind::Link { .. }, _) => Compare::Done { same: false },
        (_, Kind::Link { .. }) => Compare::Done { same: false },
        (Kind::Dir, Kind::Dir) => Compare::Entries,
        (Kind::File { len: x }, Kind::File { len: y }) => if *x == *y {
            Compare::Bytes
        } else {
            Compare::Done { same: false }
        },
        _ => Compare::Done { same: false },
    }
}

/// Two directories hold the same names: their sorted lists are equal.
pub fn same_names(a: &Vec<String>, b: &Vec<String>) -> (r: bool)
    ensures
        r == (sorted_texts(string_views(a@)) == sorted_texts(string_views(b@))),
{
    let x = sort_texts(a);
    let y = sort_texts(b);
    if x.len() != y.len() {
        assert(string_views(x@).len() != string_views(y@).len());
        return false;
    }
    let mut i: usize = 0;
    while i < x.len()
        invariant
            x.len() == y.len(),
            i <= x.len(),
            string_views(x@) == sorted_texts(string_views(a@)),
            string_views(y@) == sorted_texts(string_views(b@)),
            forall|j: int| 0 <= j < i ==> string_views(x@)[j] == string_views(y@)[j],
        decreases x.len() - i,
    {
        assert(string_views(x@)[i as int] == x@[i as int]@);
        assert(string_views(y@)[i as int] == y@[i as int]@);
        if !(x[i] == y[i]) {
            assert(string_views(x@)[i as int] != string_views(y@)[i as int]);
            assert(string_views(x@) != string_views(y@));
            return false;
        }
        i += 1;
    }
    assert(string_views(x@) =~= string_views(y@));
    true
}

/// Two files of one length hold the same bytes.
pub fn same_bytes(a: &Vec<u8>, b: &Vec<u8>) -> (r: bool)
    ensures
        r == (a@ == b@),
{
    if a.len() != b.len() {
        assert(a@.len() != b@.len());
        return false;
    }
    let mut i: usize = 0;
    while i < a.len()
        invariant
            a.len() == b.len(),
            i <= a.len(),
            forall|j: int| 0 <= j < i ==> a@[j] == b@[j],
        decreases a.len() - i,
    {
        if a[i] != b[i] {
            assert(a@[i as int] != b@[i as int]);
            return false;
        }
        i += 1;
    }
    assert(a@ =~= b@);
    true
}

/// The next step of the comparison of two directories with the same names.
#[derive(Debug, Clone, Copy, PartialEq, Eq, Structural)]
pub enum EntryStep {
    /// Compare the entry at this index of the names.
    Next(usize),
    /// The answer is known.
    Done { same: bool },
}

/// The directories are the same when each entry is: the comparison stops at
/// the first entry that differs, and otherwise goes on to the next entry
/// until none is left. `results` holds the answers for the first entries.
pub open spec fn entry_step_spec(results: Seq<bool>, count: nat) -> EntryStep {
    if exists|i: int| 0 <= i < results.len() && !#[trigger] results[i] {
        EntryStep::Done { same: false }
    } else if results.len() >= count {
        EntryStep::Done { same: true }
    } else {
        EntryStep::Next(results.len() as usize)
    }
}

pub fn entry_step(results: &Vec<bool>, count: usize) -> (r: EntryStep)
    ensures
        r == entry_step_spec(results@, count as nat),
{
    let mut i: usize = 0;
    while i < results.len()
        invariant
            i <= results.len(),
            forall|j: int| 0 <= j < i ==> results@[j],
        decreases results.len() - i,
    {
        if !results[i] {
            assert(!results@[i as int]);
            return EntryStep::Done { same: false };
        }
        i += 1;
    }
    if results.len() >= count {
        EntryStep::Done { same: true }
    } else {
        EntryStep::Next(results.len())
    }
}

/// Two directories are the same exactly when each of their entries is: the
/// walk over the entries ends with `true` only when it compared each entry
/// and each was the same, and with `false` as soon as one differs.
pub proof fn law_directories_same_when_each_entry_is(results: Seq<bool>, count: nat)
    requires
        results.len() <= count,
    ensures
        entry_step_spec(results, count) == (EntryStep::Done { same: true }) <==> (results.len()
            == count && forall|i: int| 0 <= i < results.len() ==> #[trigger] results[i]),
        (exists|i: int| 0 <= i < results.len() && !#[trigger] results[i]) ==> entry_step_spec(
            results,
            count,
        ) == (EntryStep::Done { same: false }),
{
}

} // verus!
