//! `wt ls`: each worktree, its branch, and the condition of its links.

use vstd::prelude::*;
use crate::repo::{Worktree, worktree_name, worktree_views, opt_view};
use crate::seed::Present;
use crate::text::{decimal, decimal_string, join_strings, join_with, string_views};

verus! {

/// The condition of one manifest path in one worktree.
#[derive(Debug, Clone, Copy, PartialEq, Eq, Structural)]
pub enum State {
    /// A link to the store.
    Linked,
    /// Nothing is there.
    Absent,
    /// A link that points elsewhere.
    WrongLink,
    /// A copy with the bytes of the store.
    SameFile,
    /// A different file.
    DifferentFile,
    /// The store does not have the path.
    MissingInStore,
}

pub open spec fn state_of(in_store: bool, present: Present) -> State {
    if !in_store {
        State::MissingInStore
    } else {
        match present {
            Present::Absent => State::Absent,
            Present::Link { to_store } => if to_store {
                State::Linked
            } else {
                State::WrongLink
            },
            Present::Other { same_content } => if same_content {
                State::SameFile
            } else {
                State::DifferentFile
            },
        }
    }
}

/// Read the condition of one path. This changes nothing.
pub fn inspect(in_store: bool, present: Present) -> (s: State)
    ensures
        s == state_of(in_store, present),
{
    if !in_store {
        return State::MissingInStore;
    }
    match present {
        Present::Absent => State::Absent,
        Present::Link { to_store } => if to_store {
            State::Linked
        } else {
            State::WrongLink
        },
        Present::Other { same_content } => if same_content {
            State::SameFile
        } else {
            State::DifferentFile
        },
    }
}

/// What the report says of a path that is not a correct link; `Err` holds
/// the message of an error that the inspection met.
pub open spec fn problem_text(entry: Seq<char>, s: Result<State, String>) -> Option<Seq<char>> {
    match s {
        Ok(State::Linked) => None,
        Ok(State::Absent) => Some(entry + " absent"@),
        Ok(State::WrongLink) => Some(entry + " points elsewhere"@),
        Ok(State::SameFile) => Some(entry + " is a copy"@),
        Ok(State::DifferentFile) => Some(entry + " differs"@),
        Ok(State::MissingInStore) => Some(entry + " not in store"@),
        Err(e) => Some(entry + ": "@ + e@),
    }
}

fn problem(entry: &String, s: &Result<State, String>) -> (r: Option<String>)
    ensures
        opt_view(r) == problem_text(entry@, *s),
{
    let suffix = match s {
        Ok(State::Linked) => return None,
        Ok(State::Absent) => String::from_str(" absent"),
        Ok(State::WrongLink) => String::from_str(" points elsewhere"),
        Ok(State::SameFile) => String::from_str(" is a copy"),
        Ok(State::DifferentFile) => String::from_str(" differs"),
        Ok(State::MissingInStore) => String::from_str(" not in store"),
        Err(e) => {
            let mut m = String::from_str(": ");
            m.append(e.as_str());
            m
        },
    };
    let mut m = entry.clone();
    m.append(suffix.as_str());
    Some(m)
}

/// The number of correct links and the list of problems, entry by entry.
pub open spec fn link_tally(entries: Seq<Seq<char>>, states: Seq<Result<State, String>>) -> (
    nat,
    Seq<Seq<char>>,
)
    decreases entries.len(),
{
    if entries.len() == 0 || states.len() == 0 {
        (0, Seq::empty())
    } else {
        let (good, problems) = link_tally(entries.drop_last(), states.drop_last());
        match problem_text(entries.last(), states.last()) {
            None => (good + 1, problems),
            Some(p) => (good, problems.push(p)),
        }
    }
}

pub open spec fn links_text(entries: Seq<Seq<char>>, states: Seq<Result<State, String>>) -> Seq<
    char,
> {
    let (good, problems) = link_tally(entries, states);
    let head = decimal(good) + "/"@ + decimal(entries.len()) + " links"@;
    if problems.len() == 0 {
        head
    } else {
        head + "  ("@ + join_with(problems, ", "@) + ")"@
    }
}

/// Count the links that are correct, and name the paths that are not.
/// `states[i]` is the condition of `entries[i]`.
pub fn links(entries: &Vec<String>, states: &Vec<Result<State, String>>) -> (r: String)
    requires
        entries.len() == states.len(),
    ensures
        r@ == links_text(string_views(entries@), states@),
{
    let ghost ev = string_views(entries@);
    let mut good: usize = 0;
    let mut problems: Vec<String> = Vec::new();
    let mut i: usize = 0;
    while i < entries.len()
        invariant
            entries.len() == states.len(),
            i <= entries.len(),
            ev == string_views(entries@),
            good <= i,
            (good as nat, string_views(problems@)) == link_tally(ev.take(i as int), states@.take(i as int)),
        decreases entries.len() - i,
    {
        assert(ev.take(i + 1).drop_last() =~= ev.take(i as int));
        assert(states@.take(i + 1).drop_last() =~= states@.take(i as int));
        assert(ev.take(i + 1).last() == entries@[i as int]@);
        match problem(&entries[i], &states[i]) {
            None => {
                good += 1;
            },
            Some(p) => {
                let ghost before = string_views(problems@);
                problems.push(p);
                assert(string_views(problems@) =~= before.push(p@));
            },
        }
        i += 1;
    }
    assert(ev.take(i as int) =~= ev);
    assert(states@.take(i as int) =~= states@);
    let mut r = decimal_string(good);
    r.append("/");
    let n = decimal_string(entries.len());
    r.append(n.as_str());
    r.append(" links");
    if problems.len() > 0 {
        r.append("  (");
        let list = join_strings(&problems, ", ");
        r.append(list.as_str());
        r.append(")");
    }
    r
}

/// `s` padded with spaces on the right to `w` characters, as `{:w$}` does.
pub open spec fn pad(s: Seq<char>, w: nat) -> Seq<char> {
    if s.len() >= w {
        s
    } else {
        s + Seq::new((w - s.len()) as nat, |i: int| ' ')
    }
}

fn pad_exec(s: &String, w: usize) -> (r: String)
    ensures
        r@ == pad(s@, w as nat),
{
    let mut r = s.clone();
    let n = s.as_str().unicode_len();
    if n < w {
        let mut k: usize = n;
        while k < w
            invariant
                n <= k <= w,
                n == s@.len(),
                r@ == s@ + Seq::new((k - n) as nat, |i: int| ' '),
            decreases w - k,
        {
            r.append(" ");
            proof {
                reveal_strlit(" ");
            }
            k += 1;
            assert(r@ =~= s@ + Seq::new((k - n) as nat, |i: int| ' '));
        }
    } else {
        assert(r@ == s@);
    }
    r
}

/// The longest of the texts, in characters.
pub open spec fn max_len(s: Seq<Seq<char>>) -> nat
    decreases s.len(),
{
    if s.len() == 0 {
        0
    } else {
        let m = max_len(s.drop_last());
        if s.last().len() > m {
            s.last().len()
        } else {
            m
        }
    }
}

fn max_len_exec(s: &Vec<String>) -> (m: usize)
    ensures
        m as nat == max_len(string_views(s@)),
{
    let ghost sv = string_views(s@);
    let mut m: usize = 0;
    let mut i: usize = 0;
    while i < s.len()
        invariant
            i <= s.len(),
            sv == string_views(s@),
            m as nat == max_len(sv.take(i as int)),
            forall|j: int| 0 <= j < i ==> sv[j].len() <= m,
        decreases s.len() - i,
    {
        assert(sv.take(i + 1).drop_last() =~= sv.take(i as int));
        assert(sv.take(i + 1).last() == s@[i as int]@);
        let n = s[i].as_str().unicode_len();
        if n > m {
            m = n;
        }
        i += 1;
    }
    assert(sv.take(i as int) =~= sv);
    m
}

/// The branch column: the branch, or `(detached)`.
pub open spec fn branch_column(b: Option<Seq<char>>) -> Seq<char> {
    match b {
        Some(b) => b,
        None => "(detached)"@,
    }
}

/// One line of the report: the name and the branch in columns of the width
/// of the longest; the condition of the links follows when the repository
/// has shared paths.
pub open spec fn row_text(
    name: Seq<char>,
    branch: Seq<char>,
    name_width: nat,
    branch_width: nat,
    links: Option<Seq<char>>,
) -> Seq<char> {
    match links {
        Some(l) => pad(name, name_width) + "  "@ + pad(branch, branch_width) + "  "@ + l,
        None => pad(name, name_width) + "  "@ + branch,
    }
}

/// The lines of `wt ls`. `links`, when the repository has shared paths,
/// holds the condition of the links of each worktree, in the order of the
/// worktrees.
pub fn rows(worktrees: &Vec<Worktree>, links: &Option<Vec<String>>) -> (r: Vec<String>)
    requires
        links matches Some(l) ==> l.len() == worktrees.len(),
    ensures
        r.len() == worktrees.len(),
        forall|i: int|
            0 <= i < worktrees.len() ==> {
                let names = worktree_views(worktrees@).map_values(|w: crate::repo::WorktreeView| worktree_name(w.path));
                let branches = worktree_views(worktrees@).map_values(|w: crate::repo::WorktreeView| branch_column(w.branch));
                #[trigger] r@[i]@ == row_text(
                    names[i],
                    branches[i],
                    max_len(names),
                    max_len(branches),
                    match links {
                        Some(l) => Some(l@[i]@),
                        None => None,
                    },
                )
            },
{
    let ghost ws = worktree_views(worktrees@);
    let ghost names_v = ws.map_values(|w: crate::repo::WorktreeView| worktree_name(w.path));
    let ghost branches_v = ws.map_values(|w: crate::repo::WorktreeView| branch_column(w.branch));
    let mut names: Vec<String> = Vec::new();
    let mut branches: Vec<String> = Vec::new();
    let mut i: usize = 0;
    while i < worktrees.len()
        invariant
            i <= worktrees.len(),
            ws == worktree_views(worktrees@),
            names_v == ws.map_values(|w: crate::repo::WorktreeView| worktree_name(w.path)),
            branches_v == ws.map_values(|w: crate::repo::WorktreeView| branch_column(w.branch)),
            string_views(names@) == names_v.take(i as int),
            string_views(branches@) == branches_v.take(i as int),
        decreases worktrees.len() - i,
    {
        let w = &worktrees[i];
        assert(ws[i as int] == w@);
        let n = w.name();
        let b = match &w.branch {
            Some(b) => b.clone(),
            None => String::from_str("(detached)"),
        };
        let ghost nb = string_views(names@);
        let ghost bb = string_views(branches@);
        names.push(n);
        branches.push(b);
        proof {
            assert(names_v[i as int] == worktree_name(ws[i as int].path));
            assert(branches_v[i as int] == branch_column(ws[i as int].branch));
            assert(b@ == branch_column(ws[i as int].branch)) by {
                reveal_strlit("(detached)");
            }
            assert(string_views(names@) =~= nb.push(n@));
            assert(string_views(branches@) =~= bb.push(b@));
            assert(names_v.take(i + 1) =~= names_v.take(i as int).push(names_v[i as int]));
            assert(branches_v.take(i + 1) =~= branches_v.take(i as int).push(branches_v[i as int]));
        }
        i += 1;
    }
    assert(names_v.take(i as int) =~= names_v);
    assert(branches_v.take(i as int) =~= branches_v);
    let nw = max_len_exec(&names);
    let bw = max_len_exec(&branches);
    let mut out: Vec<String> = Vec::new();
    let mut k: usize = 0;
    while k < worktrees.len()
        invariant
            k <= worktrees.len(),
            names.len() == worktrees.len(),
            branches.len() == worktrees.len(),
            links matches Some(l) ==> l.len() == worktrees.len(),
            string_views(names@) == names_v,
            string_views(branches@) == branches_v,
            nw as nat == max_len(names_v),
            bw as nat == max_len(branches_v),
            out.len() == k,
            forall|j: int|
                0 <= j < k ==> #[trigger] out@[j]@ == row_text(
                    names_v[j],
                    branches_v[j],
                    max_len(names_v),
                    max_len(branches_v),
                    match links {
                        Some(l) => Some(l@[j]@),
                        None => None,
                    },
                ),
        decreases worktrees.len() - k,
    {
        assert(names_v[k as int] == names@[k as int]@);
        assert(branches_v[k as int] == branches@[k as int]@);
        let mut line = pad_exec(&names[k], nw);
        line.append("  ");
        match links {
            Some(l) => {
                let b = pad_exec(&branches[k], bw);
                line.append(b.as_str());
                line.append("  ");
                line.append(l[k].as_str());
            },
            None => {
                line.append(branches[k].as_str());
            },
        }
        out.push(line);
        k += 1;
    }
    out
}

/// Only a link to the store counts as a good link: `ls` reports a path as
/// linked exactly when the store has it and the worktree holds a link that
/// points to it. An empty path, a wrong link and a copy all count against.
pub proof fn law_only_a_link_to_the_store_counts(in_store: bool, present: Present)
    ensures
        state_of(in_store, present) == State::Linked <==> (in_store && present
            == Present::Link { to_store: true }),
        in_store && present == Present::Absent ==> state_of(in_store, present) == State::Absent,
        !in_store ==> state_of(in_store, present) == State::MissingInStore,
{
}

} // verus!
