//! `wt delete`: which worktrees the names on the command line select.

use vstd::prelude::*;
use crate::repo::{opt_view, Worktree, WorktreeView, worktree_name, worktree_views};
use crate::text::{decimal, decimal_string, join_strings, join_with, string_views};

verus! {

/// `t` names the worktree: it is its name or its whole path.
pub open spec fn names_target(w: WorktreeView, t: Seq<char>) -> bool {
    worktree_name(w.path) == t || w.path == t
}

/// The index of the first worktree that `t` names.
pub open spec fn first_match(ws: Seq<WorktreeView>, t: Seq<char>) -> Option<int>
    decreases ws.len(),
{
    if ws.len() == 0 {
        None
    } else if names_target(ws[0], t) {
        Some(0)
    } else {
        match first_match(ws.drop_first(), t) {
            Some(i) => Some(i + 1),
            None => None,
        }
    }
}

/// Some worktree in `chosen` has the path `p`.
pub open spec fn has_path(chosen: Seq<WorktreeView>, p: Seq<char>) -> bool {
    exists|i: int| 0 <= i < chosen.len() && chosen[i].path == p
}

/// The selection, target by target: each target adds the first worktree it
/// names, unless a worktree with that path is chosen already. The first
/// target that names no worktree is the error.
pub open spec fn resolve_from(
    ws: Seq<WorktreeView>,
    chosen: Seq<WorktreeView>,
    ts: Seq<Seq<char>>,
) -> Result<Seq<WorktreeView>, Seq<char>>
    decreases ts.len(),
{
    if ts.len() == 0 {
        Ok(chosen)
    } else {
        match first_match(ws, ts[0]) {
            None => Err(ts[0]),
            Some(i) => {
                let w = ws[i];
                let next = if has_path(chosen, w.path) {
                    chosen
                } else {
                    chosen.push(w)
                };
                resolve_from(ws, next, ts.drop_first())
            },
        }
    }
}

pub open spec fn resolve_spec(ws: Seq<WorktreeView>, ts: Seq<Seq<char>>) -> Result<
    Seq<WorktreeView>,
    Seq<char>,
> {
    resolve_from(ws, Seq::empty(), ts)
}

/// The name of each worktree.
pub open spec fn worktree_names(ws: Seq<WorktreeView>) -> Seq<Seq<char>> {
    ws.map_values(|w: WorktreeView| worktree_name(w.path))
}

/// A name on the command line that names no worktree.
#[derive(Debug, Clone)]
pub struct NoSuchWorktree {
    pub target: String,
    /// The name of each worktree.
    pub names: Vec<String>,
}

pub open spec fn no_such_worktree_text(target: Seq<char>, names: Seq<Seq<char>>) -> Seq<char> {
    "there is no worktree with the name "@ + target + "\n  the names are: "@ + join_with(
        names,
        ", "@,
    )
}

impl NoSuchWorktree {
    pub fn message(&self) -> (m: String)
        ensures
            m@ == no_such_worktree_text(self.target@, string_views(self.names@)),
    {
        let mut m = String::from_str("there is no worktree with the name ");
        m.append(self.target.as_str());
        m.append("\n  the names are: ");
        let list = join_strings(&self.names, ", ");
        m.append(list.as_str());
        m
    }
}

pub proof fn lemma_first_match_at(ws: Seq<WorktreeView>, t: Seq<char>, i: int)
    requires
        0 <= i <= ws.len(),
        forall|j: int| 0 <= j < i ==> !names_target(#[trigger] ws[j], t),
        i < ws.len() ==> names_target(ws[i], t),
    ensures
        i < ws.len() ==> first_match(ws, t) == Some(i),
        i == ws.len() ==> first_match(ws, t) is None,
    decreases ws.len(),
{
    if ws.len() > 0 && !names_target(ws[0], t) {
        assert forall|j: int| 0 <= j < i - 1 implies !names_target(#[trigger] ws.drop_first()[j], t) by {
            assert(ws.drop_first()[j] == ws[j + 1]);
        }
        lemma_first_match_at(ws.drop_first(), t, i - 1);
    }
}

/// The names of the worktrees.
pub fn names(worktrees: &Vec<Worktree>) -> (r: Vec<String>)
    ensures
        string_views(r@) == worktree_names(worktree_views(worktrees@)),
{
    let mut r: Vec<String> = Vec::new();
    let mut i: usize = 0;
    while i < worktrees.len()
        invariant
            i <= worktrees.len(),
            string_views(r@) == worktree_names(worktree_views(worktrees@)).take(i as int),
        decreases worktrees.len() - i,
    {
        let n = worktrees[i].name();
        let ghost before = string_views(r@);
        r.push(n);
        proof {
            let all = worktree_names(worktree_views(worktrees@));
            assert(worktree_views(worktrees@)[i as int] == worktrees@[i as int]@);
            assert(all[i as int] == n@);
            assert(string_views(r@) =~= before.push(n@));
            assert(all.take(i + 1) =~= all.take(i as int).push(all[i as int]));
        }
        i += 1;
    }
    assert(worktree_names(worktree_views(worktrees@)).take(i as int) =~= worktree_names(
        worktree_views(worktrees@),
    ));
    r
}

/// The index of the first worktree that `target` names.
fn find(worktrees: &Vec<Worktree>, target: &String) -> (r: Option<usize>)
    ensures
        match r {
            Some(i) => first_match(worktree_views(worktrees@), target@) == Some(i as int) && i
                < worktrees.len(),
            None => first_match(worktree_views(worktrees@), target@) is None,
        },
{
    let ghost ws = worktree_views(worktrees@);
    let mut k: usize = 0;
    while k < worktrees.len()
        invariant
            k <= worktrees.len(),
            ws == worktree_views(worktrees@),
            forall|j: int| 0 <= j < k ==> !names_target(#[trigger] ws[j], target@),
        decreases worktrees.len() - k,
    {
        let w = &worktrees[k];
        let n = w.name();
        if n == *target || w.path == *target {
            proof {
                lemma_first_match_at(ws, target@, k as int);
            }
            return Some(k);
        }
        k += 1;
    }
    proof {
        lemma_first_match_at(ws, target@, k as int);
    }
    None
}

/// Some worktree in `chosen` has the path `path`.
fn contains_path(chosen: &Vec<Worktree>, path: &String) -> (b: bool)
    ensures
        b == has_path(worktree_views(chosen@), path@),
{
    let ghost cs = worktree_views(chosen@);
    let mut k: usize = 0;
    while k < chosen.len()
        invariant
            k <= chosen.len(),
            cs == worktree_views(chosen@),
            forall|j: int| 0 <= j < k ==> (#[trigger] cs[j]).path != path@,
        decreases chosen.len() - k,
    {
        if chosen[k].path == *path {
            assert(cs[k as int].path == path@);
            return true;
        }
        k += 1;
    }
    false
}

impl Worktree {
    /// A copy with the same path and branch.
    pub fn duplicate(&self) -> (w: Worktree)
        ensures
            w@ == self@,
    {
        Worktree {
            path: self.path.clone(),
            branch: match &self.branch {
                Some(b) => Some(b.clone()),
                None => None,
            },
        }
    }
}

/// Find the worktree of each name, in the order the user gave.
///
/// A name that the user gives twice names one worktree, and the second
/// removal of it would fail with a reason that says nothing. Keep the first
/// of the two. A name that is not a worktree stops the command before it
/// removes anything.
pub fn resolve(worktrees: &Vec<Worktree>, targets: &Vec<String>) -> (r: Result<
    Vec<Worktree>,
    NoSuchWorktree,
>)
    ensures
        match r {
            Ok(chosen) => resolve_spec(worktree_views(worktrees@), string_views(targets@)) == Ok::<
                Seq<WorktreeView>,
                Seq<char>,
            >(worktree_views(chosen@)),
            Err(e) => resolve_spec(worktree_views(worktrees@), string_views(targets@)) == Err::<
                Seq<WorktreeView>,
                Seq<char>,
            >(e.target@) && string_views(e.names@) == worktree_names(worktree_views(worktrees@)),
        },
{
    let ghost ws = worktree_views(worktrees@);
    let ghost ts = string_views(targets@);
    let mut chosen: Vec<Worktree> = Vec::new();
    let mut i: usize = 0;
    assert(ts.skip(0) =~= ts);
    assert(worktree_views(chosen@) =~= Seq::<WorktreeView>::empty());
    while i < targets.len()
        invariant
            i <= targets.len(),
            ws == worktree_views(worktrees@),
            ts == string_views(targets@),
            resolve_spec(ws, ts) == resolve_from(ws, worktree_views(chosen@), ts.skip(i as int)),
        decreases targets.len() - i,
    {
        let target = &targets[i];
        assert(ts.skip(i as int)[0] == target@);
        assert(ts.skip(i as int).drop_first() =~= ts.skip(i + 1));
        match find(worktrees, target) {
            None => {
                return Err(NoSuchWorktree { target: target.clone(), names: names(worktrees) });
            },
            Some(j) => {
                let found = &worktrees[j];
                if !contains_path(&chosen, &found.path) {
                    let ghost before = worktree_views(chosen@);
                    let w = found.duplicate();
                    chosen.push(w);
                    assert(worktree_views(chosen@) =~= before.push(ws[j as int]));
                }
            },
        }
        i += 1;
    }
    assert(ts.skip(i as int) =~= Seq::<Seq<char>>::empty());
    Ok(chosen)
}

/// `c` holds the worktree that `t` names.
pub open spec fn covered(ws: Seq<WorktreeView>, c: Seq<WorktreeView>, t: Seq<char>) -> bool {
    first_match(ws, t) matches Some(i) && has_path(c, ws[i].path)
}

/// No two worktrees in `c` have the same path.
pub open spec fn unique_paths(c: Seq<WorktreeView>) -> bool {
    forall|i: int, j: int| 0 <= i < j < c.len() ==> (#[trigger] c[i]).path != (#[trigger] c[j]).path
}

proof fn lemma_resolve_from_unique(
    ws: Seq<WorktreeView>,
    chosen: Seq<WorktreeView>,
    ts: Seq<Seq<char>>,
)
    requires
        unique_paths(chosen),
    ensures
        resolve_from(ws, chosen, ts) matches Ok(c) ==> unique_paths(c),
    decreases ts.len(),
{
    if ts.len() > 0 {
        if let Some(i) = first_match(ws, ts[0]) {
            let w = ws[i];
            if !has_path(chosen, w.path) {
                let next = chosen.push(w);
                assert forall|a: int, b: int| 0 <= a < b < next.len() implies (#[trigger] next[a]).path
                    != (#[trigger] next[b]).path by {
                    if b == chosen.len() {
                        assert(next[a] == chosen[a]);
                    }
                }
                lemma_resolve_from_unique(ws, next, ts.drop_first());
            } else {
                lemma_resolve_from_unique(ws, chosen, ts.drop_first());
            }
        }
    }
}

proof fn lemma_first_match_bounds(ws: Seq<WorktreeView>, t: Seq<char>)
    ensures
        first_match(ws, t) matches Some(i) ==> 0 <= i < ws.len() && names_target(ws[i], t),
    decreases ws.len(),
{
    if ws.len() > 0 && !names_target(ws[0], t) {
        lemma_first_match_bounds(ws.drop_first(), t);
    }
}

proof fn lemma_resolve_from_covers(
    ws: Seq<WorktreeView>,
    chosen: Seq<WorktreeView>,
    ts: Seq<Seq<char>>,
)
    ensures
        resolve_from(ws, chosen, ts) matches Ok(c) ==> {
            &&& forall|p: Seq<char>| has_path(chosen, p) ==> has_path(c, p)
            &&& forall|k: int|
                0 <= k < ts.len() ==> #[trigger] covered(ws, c, ts[k])
        },
    decreases ts.len(),
{
    if ts.len() > 0 {
        lemma_first_match_bounds(ws, ts[0]);
        if let Some(i) = first_match(ws, ts[0]) {
            let w = ws[i];
            let next = if has_path(chosen, w.path) {
                chosen
            } else {
                chosen.push(w)
            };
            assert forall|p: Seq<char>| has_path(chosen, p) implies has_path(next, p) by {
                if !has_path(chosen, w.path) {
                    let j = choose|j: int| 0 <= j < chosen.len() && chosen[j].path == p;
                    assert(next[j] == chosen[j]);
                }
            }
            assert(has_path(next, w.path)) by {
                if !has_path(chosen, w.path) {
                    assert(next[chosen.len() as int] == w);
                }
            }
            lemma_resolve_from_covers(ws, next, ts.drop_first());
            if resolve_from(ws, chosen, ts) is Ok {
                assert forall|k: int| 0 <= k < ts.len() implies #[trigger] covered(ws, resolve_from(ws, chosen, ts)->Ok_0, ts[k]) by {
                    if k > 0 {
                        assert(ts[k] == ts.drop_first()[k - 1]);
                    }
                }
            }
        }
    }
}

proof fn lemma_resolve_from_error(
    ws: Seq<WorktreeView>,
    chosen: Seq<WorktreeView>,
    ts: Seq<Seq<char>>,
)
    ensures
        resolve_from(ws, chosen, ts) matches Err(t) ==> exists|i: int|
            0 <= i < ts.len() && ts[i] == t && (#[trigger] first_match(ws, ts[i])) is None && forall|
                j: int,
            | 0 <= j < i ==> (#[trigger] first_match(ws, ts[j])) is Some,
        (forall|i: int| 0 <= i < ts.len() ==> (#[trigger] first_match(ws, ts[i])) is Some)
            <==> resolve_from(ws, chosen, ts) is Ok,
    decreases ts.len(),
{
    if ts.len() > 0 {
        if let Some(i) = first_match(ws, ts[0]) {
            let w = ws[i];
            let next = if has_path(chosen, w.path) {
                chosen
            } else {
                chosen.push(w)
            };
            let rest = ts.drop_first();
            lemma_resolve_from_error(ws, next, rest);
            if resolve_from(ws, chosen, ts) is Err {
                let t = resolve_from(ws, chosen, ts)->Err_0;
                let i2 = choose|i2: int|
                    0 <= i2 < rest.len() && rest[i2] == t && (#[trigger] first_match(ws, rest[i2]))
                        is None && forall|j: int|
                        0 <= j < i2 ==> (#[trigger] first_match(ws, rest[j])) is Some;
                assert(ts[i2 + 1] == rest[i2]);
                assert forall|j: int| 0 <= j < i2 + 1 implies (#[trigger] first_match(ws, ts[j])) is Some by {
                    if j > 0 {
                        assert(ts[j] == rest[j - 1]);
                    }
                }
            }
            if forall|i: int| 0 <= i < ts.len() ==> (#[trigger] first_match(ws, ts[i])) is Some {
                assert forall|i: int| 0 <= i < rest.len() implies (#[trigger] first_match(ws, rest[i])) is Some by {
                    assert(rest[i] == ts[i + 1]);
                }
            }
            if resolve_from(ws, chosen, ts) is Ok {
                assert forall|i: int| 0 <= i < ts.len() implies (#[trigger] first_match(ws, ts[i])) is Some by {
                    if i > 0 {
                        assert(ts[i] == rest[i - 1]);
                    }
                }
            }
        }
    }
}

/// The selection holds each worktree once: a worktree that the user names
/// twice, by its name and by its path, is removed once.
pub proof fn law_resolve_names_each_worktree_once(ws: Seq<WorktreeView>, ts: Seq<Seq<char>>)
    ensures
        resolve_spec(ws, ts) matches Ok(c) ==> unique_paths(c),
{
    lemma_resolve_from_unique(ws, Seq::empty(), ts);
}

/// The selection holds the worktree of each name that the user gives.
pub proof fn law_resolve_covers_each_name(ws: Seq<WorktreeView>, ts: Seq<Seq<char>>)
    ensures
        resolve_spec(ws, ts) matches Ok(c) ==> forall|k: int|
            0 <= k < ts.len() ==> #[trigger] covered(ws, c, ts[k]),
{
    lemma_resolve_from_covers(ws, Seq::empty(), ts);
}

/// The command reads every name first: it fails exactly when some name is
/// not a worktree, and then it reports the first such name.
pub proof fn law_resolve_all_or_nothing(ws: Seq<WorktreeView>, ts: Seq<Seq<char>>)
    ensures
        resolve_spec(ws, ts) matches Err(t) ==> exists|i: int|
            0 <= i < ts.len() && ts[i] == t && (#[trigger] first_match(ws, ts[i])) is None && forall|
                j: int,
            | 0 <= j < i ==> (#[trigger] first_match(ws, ts[j])) is Some,
        (forall|i: int| 0 <= i < ts.len() ==> (#[trigger] first_match(ws, ts[i])) is Some)
            <==> resolve_spec(ws, ts) is Ok,
{
    lemma_resolve_from_error(ws, Seq::empty(), ts);
}

// ------------------------------------------------ the report

/// The count line: one name gives one line, and that line is the whole
/// report; a list needs the count, because git wrote between the lines of
/// `wt`. `kept` is the number of worktrees that git did not remove.
pub open spec fn count_line_text(chosen: nat, kept: nat) -> Option<Seq<char>> {
    if chosen > 1 {
        Some(decimal((chosen - kept) as nat) + " worktree(s) removed"@)
    } else {
        None
    }
}

pub fn count_line(chosen: usize, kept: usize) -> (r: Option<String>)
    requires
        kept <= chosen,
    ensures
        opt_view(r) == count_line_text(chosen as nat, kept as nat),
{
    if chosen > 1 {
        let mut m = decimal_string(chosen - kept);
        m.append(" worktree(s) removed");
        Some(m)
    } else {
        None
    }
}

/// The error of the command: the names of the worktrees that git did not
/// remove, when there is one.
pub open spec fn refusal_text(kept: Seq<Seq<char>>) -> Option<Seq<char>> {
    if kept.len() > 0 {
        Some("wt cannot remove "@ + join_with(kept, ", "@) + ". use --force"@)
    } else {
        None
    }
}

pub fn refusal(kept: &Vec<String>) -> (r: Option<String>)
    ensures
        opt_view(r) == refusal_text(string_views(kept@)),
{
    if kept.len() > 0 {
        let mut m = String::from_str("wt cannot remove ");
        let list = join_strings(kept, ", ");
        m.append(list.as_str());
        m.append(". use --force");
        Some(m)
    } else {
        None
    }
}

/// `w` is named by one of `all`: by its whole name or by its whole path.
pub open spec fn named_by(w: WorktreeView, all: Seq<Seq<char>>) -> bool {
    exists|k: int| 0 <= k < all.len() && (worktree_name(w.path) == all[k] || w.path == all[k])
}

proof fn lemma_resolve_from_named(
    ws: Seq<WorktreeView>,
    chosen: Seq<WorktreeView>,
    ts: Seq<Seq<char>>,
    all: Seq<Seq<char>>,
)
    requires
        forall|i: int| 0 <= i < chosen.len() ==> named_by(#[trigger] chosen[i], all),
        forall|k: int| 0 <= k < ts.len() ==> all.contains(#[trigger] ts[k]),
    ensures
        resolve_from(ws, chosen, ts) matches Ok(c) ==> forall|i: int|
            0 <= i < c.len() ==> named_by(#[trigger] c[i], all),
    decreases ts.len(),
{
    if ts.len() > 0 {
        lemma_first_match_bounds(ws, ts[0]);
        if let Some(i) = first_match(ws, ts[0]) {
            let w = ws[i];
            assert(all.contains(ts[0]));
            let k0 = choose|k: int| 0 <= k < all.len() && all[k] == ts[0];
            assert(named_by(w, all)) by {
                assert(worktree_name(w.path) == all[k0] || w.path == all[k0]);
            }
            let next = if has_path(chosen, w.path) {
                chosen
            } else {
                chosen.push(w)
            };
            assert forall|j: int| 0 <= j < next.len() implies named_by(#[trigger] next[j], all) by {
                if j < chosen.len() {
                    assert(next[j] == chosen[j]);
                }
            }
            let rest = ts.drop_first();
            assert forall|k: int| 0 <= k < rest.len() implies all.contains(#[trigger] rest[k]) by {
                assert(rest[k] == ts[k + 1]);
            }
            lemma_resolve_from_named(ws, next, rest, all);
        }
    }
}

/// `wt delete` removes only what the user named: each selected worktree is
/// one of the list, and some name on the command line is its whole name or
/// its whole path. A name that is the name and the path of no worktree
/// stops the command before it removes anything.
pub proof fn law_resolve_selects_only_named_worktrees(ws: Seq<WorktreeView>, ts: Seq<Seq<char>>)
    ensures
        resolve_spec(ws, ts) matches Ok(c) ==> forall|i: int|
            0 <= i < c.len() ==> exists|k: int|
                0 <= k < ts.len() && (worktree_name((#[trigger] c[i]).path) == ts[k] || c[i].path
                    == ts[k]),
        (exists|k: int|
            #![trigger ts[k]]
            0 <= k < ts.len() && forall|j: int|
                0 <= j < ws.len() ==> worktree_name((#[trigger] ws[j]).path) != ts[k] && ws[j].path
                    != ts[k]) ==> resolve_spec(ws, ts) is Err,
{
    assert forall|k: int| 0 <= k < ts.len() implies ts.contains(#[trigger] ts[k]) by {}
    lemma_resolve_from_named(ws, Seq::empty(), ts, ts);
    if resolve_spec(ws, ts) is Ok {
        let c = resolve_spec(ws, ts)->Ok_0;
        assert forall|i: int| 0 <= i < c.len() implies exists|k: int|
            0 <= k < ts.len() && (worktree_name((#[trigger] c[i]).path) == ts[k] || c[i].path
                == ts[k]) by {
            assert(named_by(c[i], ts));
        }
    }
    lemma_resolve_from_error(ws, Seq::empty(), ts);
    if exists|k: int|
        #![trigger ts[k]]
        0 <= k < ts.len() && forall|j: int|
            0 <= j < ws.len() ==> worktree_name((#[trigger] ws[j]).path) != ts[k] && ws[j].path
                != ts[k] {
        let k = choose|k: int|
            #![trigger ts[k]]
            0 <= k < ts.len() && forall|j: int|
                0 <= j < ws.len() ==> worktree_name((#[trigger] ws[j]).path) != ts[k] && ws[j].path
                    != ts[k];
        lemma_first_match_bounds(ws, ts[k]);
        if let Some(i) = first_match(ws, ts[k]) {
            assert(names_target(ws[i], ts[k]));
            assert(false);
        }
    }
}

} // verus!
