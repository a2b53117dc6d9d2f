//! `wt cd <worktree>` and its short form `wt <worktree>`: which worktree a
//! word names.

use vstd::prelude::*;
use crate::cmd::delete::{names, worktree_names};
use crate::repo::{Worktree, WorktreeView, worktree_name, worktree_views, opt_view};
use crate::text::{join_strings, join_with, starts_with, string_views, chars_of};

verus! {

/// The index of the first worktree that `p` holds of.
pub open spec fn first_where(ws: Seq<WorktreeView>, p: spec_fn(WorktreeView) -> bool) -> Option<int>
    decreases ws.len(),
{
    if ws.len() == 0 {
        None
    } else if p(ws[0]) {
        Some(0)
    } else {
        match first_where(ws.drop_first(), p) {
            Some(i) => Some(i + 1),
            None => None,
        }
    }
}

pub open spec fn has_name(t: Seq<char>) -> spec_fn(WorktreeView) -> bool {
    |w: WorktreeView| worktree_name(w.path) == t
}

pub open spec fn on_branch(t: Seq<char>) -> spec_fn(WorktreeView) -> bool {
    |w: WorktreeView| w.branch == Some(t)
}

/// The worktrees whose name starts with `t`, in their order.
pub open spec fn prefix_named(ws: Seq<WorktreeView>, t: Seq<char>) -> Seq<WorktreeView>
    decreases ws.len(),
{
    if ws.len() == 0 {
        ws
    } else {
        let sub = prefix_named(ws.drop_last(), t);
        if starts_with(worktree_name(ws.last().path), t) {
            sub.push(ws.last())
        } else {
            sub
        }
    }
}

pub proof fn lemma_first_where_at(ws: Seq<WorktreeView>, p: spec_fn(WorktreeView) -> bool, i: int)
    requires
        0 <= i <= ws.len(),
        forall|j: int| 0 <= j < i ==> !p(#[trigger] ws[j]),
        i < ws.len() ==> p(ws[i]),
    ensures
        i < ws.len() ==> first_where(ws, p) == Some(i),
        i == ws.len() ==> first_where(ws, p) is None,
    decreases ws.len(),
{
    if ws.len() > 0 && !p(ws[0]) {
        assert forall|j: int| 0 <= j < i - 1 implies !p(#[trigger] ws.drop_first()[j]) by {
            assert(ws.drop_first()[j] == ws[j + 1]);
        }
        lemma_first_where_at(ws.drop_first(), p, i - 1);
    }
}

/// What the word names: the path to print, and the line for the user that
/// says which worktree it is, when the word was not its exact name.
#[derive(Debug, Clone)]
pub struct Found {
    pub path: String,
    pub note: Option<String>,
}

/// What the caller looked for, for the message when nothing matches.
#[derive(Debug, Clone, Copy, PartialEq, Eq, Structural)]
pub enum Noun {
    Worktree,
    CommandOrWorktree,
}

pub open spec fn noun_text(n: Noun) -> Seq<char> {
    match n {
        Noun::Worktree => "worktree"@,
        Noun::CommandOrWorktree => "command or worktree"@,
    }
}

#[derive(Debug, Clone)]
pub enum CdError {
    /// No worktree has the name, the branch, or a name that starts so.
    NoMatch { noun: Noun, target: String, names: Vec<String> },
    /// The start of more than one name.
    Ambiguous { target: String, matches: Vec<String> },
    /// More than one word after `wt`: a command that does not exist.
    NoSuchCommand { first: String },
}

pub open spec fn cd_error_text(e: CdError) -> Seq<char> {
    match e {
        CdError::NoMatch { noun, target, names } => "there is no "@ + noun_text(noun)
            + " with the name "@ + target@ + "\n  the worktree names are: "@ + join_with(
            string_views(names@),
            ", "@,
        ),
        CdError::Ambiguous { target, matches } => target@ + " matches more than one worktree: "@
            + join_with(string_views(matches@), ", "@),
        CdError::NoSuchCommand { first } => "there is no command with the name "@ + first@
            + "\n  wt <worktree> is the short form of wt cd <worktree>, and it takes one name"@,
    }
}

impl CdError {
    pub fn message(&self) -> (m: String)
        ensures
            m@ == cd_error_text(*self),
    {
        match self {
            CdError::NoMatch { noun, target, names } => {
                let mut m = String::from_str("there is no ");
                match noun {
                    Noun::Worktree => m.append("worktree"),
                    Noun::CommandOrWorktree => m.append("command or worktree"),
                }
                m.append(" with the name ");
                m.append(target.as_str());
                m.append("\n  the worktree names are: ");
                let list = join_strings(names, ", ");
                m.append(list.as_str());
                m
            },
            CdError::Ambiguous { target, matches } => {
                let mut m = String::from_str(target.as_str());
                m.append(" matches more than one worktree: ");
                let list = join_strings(matches, ", ");
                m.append(list.as_str());
                m
            },
            CdError::NoSuchCommand { first } => {
                let mut m = String::from_str("there is no command with the name ");
                m.append(first.as_str());
                m.append(
                    "\n  wt <worktree> is the short form of wt cd <worktree>, and it takes one name",
                );
                m
            },
        }
    }
}

/// The line for the user when the word is the branch of a worktree.
pub open spec fn branch_note(name: Seq<char>, target: Seq<char>) -> Seq<char> {
    "  "@ + name + "  (branch "@ + target + ")"@
}

/// The line for the user when the word is the start of one name.
pub open spec fn prefix_note(name: Seq<char>) -> Seq<char> {
    "  "@ + name
}

/// What `lookup` answers: the exact name first, then the branch, then the
/// start of exactly one name.
pub open spec fn lookup_ok(ws: Seq<WorktreeView>, t: Seq<char>, path: Seq<char>, note: Option<Seq<char>>) -> bool {
    match first_where(ws, has_name(t)) {
        Some(i) => path == ws[i].path && note is None,
        None => match first_where(ws, on_branch(t)) {
            Some(i) => path == ws[i].path && note == Some(branch_note(worktree_name(ws[i].path), t)),
            None => prefix_named(ws, t).len() == 1 && path == prefix_named(ws, t)[0].path && note
                == Some(prefix_note(worktree_name(prefix_named(ws, t)[0].path))),
        },
    }
}

/// `lookup` fails: nothing matches, or the start of more than one name.
pub open spec fn lookup_err(ws: Seq<WorktreeView>, t: Seq<char>, noun: Noun, e: CdError) -> bool {
    &&& first_where(ws, has_name(t)) is None
    &&& first_where(ws, on_branch(t)) is None
    &&& if prefix_named(ws, t).len() == 0 {
        e matches CdError::NoMatch { noun: n, target, names } && n == noun && target@ == t
            && string_views(names@) == worktree_names(ws)
    } else {
        &&& prefix_named(ws, t).len() > 1
        &&& e matches CdError::Ambiguous { target, matches }
        &&& target@ == t
        &&& string_views(matches@) == worktree_names(prefix_named(ws, t))
    }
}

fn find_by_name(worktrees: &Vec<Worktree>, target: &String) -> (r: Option<usize>)
    ensures
        match r {
            Some(i) => i < worktrees.len() && first_where(worktree_views(worktrees@), has_name(target@))
                == Some(i as int),
            None => first_where(worktree_views(worktrees@), has_name(target@)) is None,
        },
{
    let ghost ws = worktree_views(worktrees@);
    let mut k: usize = 0;
    while k < worktrees.len()
        invariant
            k <= worktrees.len(),
            ws == worktree_views(worktrees@),
            forall|j: int| 0 <= j < k ==> !has_name(target@)(#[trigger] ws[j]),
        decreases worktrees.len() - k,
    {
        if worktrees[k].name() == *target {
            proof {
                lemma_first_where_at(ws, has_name(target@), k as int);
            }
            return Some(k);
        }
        k += 1;
    }
    proof {
        lemma_first_where_at(ws, has_name(target@), k as int);
    }
    None
}

pub(crate) fn find_by_branch(worktrees: &Vec<Worktree>, target: &String) -> (r: Option<usize>)
    ensures
        match r {
            Some(i) => i < worktrees.len() && first_where(worktree_views(worktrees@), on_branch(target@))
                == Some(i as int),
            None => first_where(worktree_views(worktrees@), on_branch(target@)) is None,
        },
{
    let ghost ws = worktree_views(worktrees@);
    let mut k: usize = 0;
    while k < worktrees.len()
        invariant
            k <= worktrees.len(),
            ws == worktree_views(worktrees@),
            forall|j: int| 0 <= j < k ==> !on_branch(target@)(#[trigger] ws[j]),
        decreases worktrees.len() - k,
    {
        let hit = match &worktrees[k].branch {
            Some(b) => *b == *target,
            None => false,
        };
        assert(hit == on_branch(target@)(ws[k as int]));
        if hit {
            proof {
                lemma_first_where_at(ws, on_branch(target@), k as int);
            }
            return Some(k);
        }
        k += 1;
    }
    proof {
        lemma_first_where_at(ws, on_branch(target@), k as int);
    }
    None
}

/// The worktrees whose name starts with `target`.
fn by_prefix(worktrees: &Vec<Worktree>, target: &String) -> (r: Vec<Worktree>)
    ensures
        worktree_views(r@) == prefix_named(worktree_views(worktrees@), target@),
{
    let ghost ws = worktree_views(worktrees@);
    let t = chars_of(target.as_str());
    let mut r: Vec<Worktree> = Vec::new();
    let mut k: usize = 0;
    assert(ws.take(0) =~= Seq::<WorktreeView>::empty());
    assert(worktree_views(r@) =~= Seq::<WorktreeView>::empty());
    while k < worktrees.len()
        invariant
            k <= worktrees.len(),
            ws == worktree_views(worktrees@),
            t@ == target@,
            worktree_views(r@) == prefix_named(ws.take(k as int), target@),
        decreases worktrees.len() - k,
    {
        let n = chars_of(worktrees[k].name().as_str());
        proof {
            assert(ws.take(k + 1).drop_last() =~= ws.take(k as int));
            assert(ws.take(k + 1).last() == ws[k as int]);
            assert(ws[k as int] == worktrees@[k as int]@);
        }
        if crate::text::starts_with_vec(&n, t.as_slice()) {
            let ghost before = worktree_views(r@);
            let w = worktrees[k].duplicate();
            r.push(w);
            assert(worktree_views(r@) =~= before.push(ws[k as int]));
        }
        k += 1;
    }
    assert(ws.take(k as int) =~= ws);
    r
}

/// Find the worktree that `target` names. `noun` names what the caller
/// looked for, for the message when nothing matches.
pub fn lookup(worktrees: &Vec<Worktree>, target: &String, noun: Noun) -> (r: Result<Found, CdError>)
    ensures
        match r {
            Ok(f) => lookup_ok(worktree_views(worktrees@), target@, f.path@, opt_view(f.note)),
            Err(e) => lookup_err(worktree_views(worktrees@), target@, noun, e),
        },
{
    if let Some(i) = find_by_name(worktrees, target) {
        return Ok(Found { path: worktrees[i].path.clone(), note: None });
    }
    if let Some(i) = find_by_branch(worktrees, target) {
        let mut note = String::from_str("  ");
        note.append(worktrees[i].name().as_str());
        note.append("  (branch ");
        note.append(target.as_str());
        note.append(")");
        return Ok(Found { path: worktrees[i].path.clone(), note: Some(note) });
    }
    let matches = by_prefix(worktrees, target);
    if matches.len() == 1 {
        let mut note = String::from_str("  ");
        note.append(matches[0].name().as_str());
        assert(worktree_views(matches@)[0] == matches@[0]@);
        Ok(Found { path: matches[0].path.clone(), note: Some(note) })
    } else if matches.len() == 0 {
        Err(CdError::NoMatch { noun, target: target.clone(), names: names(worktrees) })
    } else {
        Err(CdError::Ambiguous { target: target.clone(), matches: names(&matches) })
    }
}

/// Print the path of one worktree, so the shell can change directory.
///
/// The name of a worktree directory and the name of its branch can differ,
/// because a branch can move after you make the worktree. This command
/// therefore accepts either name, and it also accepts the start of a
/// directory name when only one worktree matches.
pub fn run(worktrees: &Vec<Worktree>, target: &String) -> (r: Result<Found, CdError>)
    ensures
        match r {
            Ok(f) => lookup_ok(worktree_views(worktrees@), target@, f.path@, opt_view(f.note)),
            Err(e) => lookup_err(worktree_views(worktrees@), target@, Noun::Worktree, e),
        },
{
    lookup(worktrees, target, Noun::Worktree)
}

/// Handle `wt <worktree>`, the short form of `wt cd <worktree>`.
///
/// Every unknown first word arrives here, so a mistyped command arrives with
/// the worktree names. One word is a worktree; more than one word is a
/// command that does not exist.
pub fn bare(worktrees: &Vec<Worktree>, words: &Vec<String>) -> (r: Result<Found, CdError>)
    requires
        words.len() >= 1,
    ensures
        words.len() == 1 ==> match r {
            Ok(f) => lookup_ok(worktree_views(worktrees@), words@[0]@, f.path@, opt_view(f.note)),
            Err(e) => lookup_err(worktree_views(worktrees@), words@[0]@, Noun::CommandOrWorktree, e),
        },
        words.len() > 1 ==> (r matches Err(CdError::NoSuchCommand { first }) && first@ == words@[0]@),
{
    if words.len() == 1 {
        lookup(worktrees, &words[0], Noun::CommandOrWorktree)
    } else {
        Err(CdError::NoSuchCommand { first: words[0].clone() })
    }
}

/// The name of the worktree begins with the word.
pub open spec fn name_begins_with(t: Seq<char>) -> spec_fn(WorktreeView) -> bool {
    |w: WorktreeView|
        t.len() <= worktree_name(w.path).len() && worktree_name(w.path).take(t.len() as int) == t
}

/// The candidates of the last step of `wt cd` are exactly the worktrees whose
/// name begins with the word, in the order of the list: a name that holds
/// the word elsewhere is no candidate.
pub proof fn law_prefix_candidates_begin_with_the_word(ws: Seq<WorktreeView>, t: Seq<char>)
    ensures
        prefix_named(ws, t) == ws.filter(name_begins_with(t)),
    decreases ws.len(),
{
    if ws.len() == 0 {
        reveal(Seq::filter);
    } else {
        law_prefix_candidates_begin_with_the_word(ws.drop_last(), t);
        let sub = ws.drop_last().filter(name_begins_with(t));
        reveal(Seq::filter);
        assert(ws.filter(name_begins_with(t)) == if name_begins_with(t)(ws.last()) {
            sub.push(ws.last())
        } else {
            sub
        });
        assert(name_begins_with(t)(ws.last()) == starts_with(worktree_name(ws.last().path), t));
    }
}

} // verus!
