//! A repository that has worktrees, and the list of its worktrees.

use vstd::prelude::*;
use crate::path::{file_name, file_name_of, join, parent, parent_of, path_join};
use crate::text::{chars_of, lines, lines_vec, starts_with, string_of, strip_prefix_vec, views};

verus! {

/// A text that may be absent, by its characters.
pub open spec fn opt_view(o: Option<String>) -> Option<Seq<char>> {
    match o {
        Some(s) => Some(s@),
        None => None,
    }
}

#[derive(Debug, Clone)]
pub struct Worktree {
    pub path: String,
    pub branch: Option<String>,
}

/// A worktree by its characters: its path and the branch it is on.
pub struct WorktreeView {
    pub path: Seq<char>,
    pub branch: Option<Seq<char>>,
}

impl View for Worktree {
    type V = WorktreeView;

    open spec fn view(&self) -> WorktreeView {
        WorktreeView { path: self.path@, branch: opt_view(self.branch) }
    }
}

pub open spec fn worktree_views(ws: Seq<Worktree>) -> Seq<WorktreeView> {
    ws.map_values(|w: Worktree| w@)
}

/// The name of a worktree: the last segment of its path, or the whole path
/// when it has no such segment.
pub open spec fn worktree_name(path: Seq<char>) -> Seq<char> {
    match file_name(path) {
        Some(n) => n,
        None => path,
    }
}

impl Worktree {
    pub fn name(&self) -> (n: String)
        ensures
            n@ == worktree_name(self.path@),
    {
        match file_name_of(self.path.as_str()) {
            Some(n) => n,
            None => self.path.clone(),
        }
    }
}

// ------------------------------------------------ `git worktree list --porcelain`

/// What the reader of the list holds between two lines: the worktrees it
/// found, and the fields of the record it reads now.
pub struct ListState {
    pub found: Seq<WorktreeView>,
    pub path: Option<Seq<char>>,
    pub branch: Option<Seq<char>>,
    pub bare: bool,
}

pub open spec fn list_start() -> ListState {
    ListState { found: Seq::empty(), path: None, branch: None, bare: false }
}

/// The end of a record: a record with a path that is not the bare
/// repository is a worktree.
pub open spec fn list_flush(st: ListState) -> ListState {
    ListState {
        found: match st.path {
            Some(p) => if !st.bare {
                st.found.push(WorktreeView { path: p, branch: st.branch })
            } else {
                st.found
            },
            None => st.found,
        },
        path: None,
        branch: None,
        bare: false,
    }
}

pub open spec fn worktree_prefix() -> Seq<char> {
    seq!['w', 'o', 'r', 'k', 't', 'r', 'e', 'e', ' ']
}

pub open spec fn branch_prefix() -> Seq<char> {
    seq![
        'b', 'r', 'a', 'n', 'c', 'h', ' ', 'r', 'e', 'f', 's', '/', 'h', 'e', 'a', 'd', 's', '/',
    ]
}

pub open spec fn bare_word() -> Seq<char> {
    seq!['b', 'a', 'r', 'e']
}

/// One line of the list. An empty line ends a record; `worktree <path>`
/// starts one; `branch refs/heads/<name>` gives its branch; `bare` marks the
/// bare repository. Each other line changes nothing.
pub open spec fn list_step(st: ListState, line: Seq<char>) -> ListState {
    if line.len() == 0 {
        list_flush(st)
    } else if starts_with(line, worktree_prefix()) {
        ListState { path: Some(line.skip(9)), ..list_flush(st) }
    } else if starts_with(line, branch_prefix()) {
        ListState { branch: Some(line.skip(18)), ..st }
    } else if line == bare_word() {
        ListState { bare: true, ..st }
    } else {
        st
    }
}

pub open spec fn list_run(st: ListState, ls: Seq<Seq<char>>) -> ListState
    decreases ls.len(),
{
    if ls.len() == 0 {
        st
    } else {
        list_run(list_step(st, ls[0]), ls.drop_first())
    }
}

/// The worktrees that the porcelain list names, in its order, without the
/// bare repository.
pub open spec fn parse_worktree_list(text: Seq<char>) -> Seq<WorktreeView> {
    list_flush(list_run(list_start(), lines(text))).found
}

/// `p` is the path of some `worktree <p>` line of `ls`.
pub open spec fn listed_path(ls: Seq<Seq<char>>, p: Seq<char>) -> bool {
    exists|i: int| 0 <= i < ls.len() && starts_with(ls[i], worktree_prefix()) && #[trigger] ls[i].skip(9) == p
}

/// Each path the reader holds is one that a line of `all` names.
pub open spec fn state_listed(all: Seq<Seq<char>>, st: ListState) -> bool {
    &&& forall|k: int| 0 <= k < st.found.len() ==> listed_path(all, #[trigger] st.found[k].path)
    &&& st.path matches Some(p) ==> listed_path(all, p)
}

proof fn lemma_run_listed(all: Seq<Seq<char>>, st: ListState, ls: Seq<Seq<char>>, off: int)
    requires
        0 <= off,
        off + ls.len() <= all.len(),
        forall|i: int| 0 <= i < ls.len() ==> ls[i] == all[off + i],
        state_listed(all, st),
    ensures
        state_listed(all, list_run(st, ls)),
    decreases ls.len(),
{
    if ls.len() > 0 {
        let line = ls[0];
        let next = list_step(st, line);
        let fl = list_flush(st);
        assert(state_listed(all, fl)) by {
            assert forall|k: int| 0 <= k < fl.found.len() implies listed_path(all, #[trigger] fl.found[k].path) by {
                if k < st.found.len() {
                    assert(fl.found[k] == st.found[k]);
                }
            }
        }
        if line.len() != 0 && starts_with(line, worktree_prefix()) {
            assert(all[off] == line);
            assert(listed_path(all, line.skip(9)));
        }
        assert(state_listed(all, next));
        assert forall|i: int| 0 <= i < ls.drop_first().len() implies ls.drop_first()[i] == all[off + 1 + i] by {
            assert(ls.drop_first()[i] == ls[i + 1]);
        }
        lemma_run_listed(all, next, ls.drop_first(), off + 1);
    }
}

/// The list names only worktrees that the listing names: each path in it
/// stands in a `worktree <path>` line.
pub proof fn law_each_worktree_is_listed(text: Seq<char>)
    ensures
        forall|k: int|
            0 <= k < parse_worktree_list(text).len() ==> listed_path(
                lines(text),
                #[trigger] parse_worktree_list(text)[k].path,
            ),
{
    let all = lines(text);
    lemma_run_listed(all, list_start(), all, 0);
    let st = list_run(list_start(), all);
    let fl = list_flush(st);
    assert forall|k: int| 0 <= k < fl.found.len() implies listed_path(all, #[trigger] fl.found[k].path) by {
        if k < st.found.len() {
            assert(fl.found[k] == st.found[k]);
        }
    }
}

pub open spec fn opt_chars(o: Option<Vec<char>>) -> Option<Seq<char>> {
    match o {
        Some(v) => Some(v@),
        None => None,
    }
}

pub open spec fn state_of(
    found: Seq<Worktree>,
    path: Option<Vec<char>>,
    branch: Option<Vec<char>>,
    bare: bool,
) -> ListState {
    ListState { found: worktree_views(found), path: opt_chars(path), branch: opt_chars(branch), bare }
}

fn to_string_opt(o: Option<Vec<char>>) -> (r: Option<String>)
    ensures
        opt_view(r) == opt_chars(o),
{
    match o {
        Some(v) => Some(string_of(&v)),
        None => None,
    }
}

fn flush_into(found: &mut Vec<Worktree>, path: Option<Vec<char>>, branch: Option<Vec<char>>, bare: bool)
    ensures
        worktree_views(final(found)@) == list_flush(state_of(old(found)@, path, branch, bare)).found,
{
    let ghost before = found@;
    if let Some(p) = path {
        if !bare {
            let w = Worktree { path: string_of(&p), branch: to_string_opt(branch) };
            found.push(w);
            assert(worktree_views(found@) =~= worktree_views(before).push(w@));
        }
    }
}

/// A repository that has worktrees. The common directory identifies it.
///
/// The tool accepts two layouts. Git resolves both with `--git-common-dir`.
/// In the first layout the bare repository is the parent (`repo.git`).
/// In the second layout the bare repository is `repo/.bare`.
#[derive(Debug, Clone)]
pub struct Repo {
    pub common: String,
}

/// An error of the repository.
#[derive(Debug, Clone)]
pub enum RepoError {
    /// origin/HEAD is unset, and neither origin/main nor origin/master is present.
    NoBase,
    /// The repository has no `worktree-shared.toml`.
    NotManaged { common: String },
}

pub open spec fn repo_error_text(e: RepoError) -> Seq<char> {
    match e {
        RepoError::NoBase => "cannot determine a base branch: origin/HEAD is unset and neither origin/main nor origin/master exists"@,
        RepoError::NotManaged { common } => "wt does not control "@ + common@
            + ". the file worktree-shared.toml is not present\n  run `wt init` first"@,
    }
}

impl RepoError {
    pub fn message(&self) -> (m: String)
        ensures
            m@ == repo_error_text(*self),
    {
        match self {
            RepoError::NoBase => String::from_str(
                "cannot determine a base branch: origin/HEAD is unset and neither origin/main nor origin/master exists",
            ),
            RepoError::NotManaged { common } => {
                let mut m = String::from_str("wt does not control ");
                m.append(common.as_str());
                m.append(". the file worktree-shared.toml is not present\n  run `wt init` first");
                m
            },
        }
    }
}

pub open spec fn shared_name() -> Seq<char> {
    seq!['s', 'h', 'a', 'r', 'e', 'd']
}

pub open spec fn manifest_name() -> Seq<char> {
    seq![
        'w', 'o', 'r', 'k', 't', 'r', 'e', 'e', '-', 's', 'h', 'a', 'r', 'e', 'd', '.', 't', 'o', 'm',
        'l',
    ]
}

pub open spec fn hooks_name() -> Seq<char> {
    seq!['h', 'o', 'o', 'k', 's']
}

pub open spec fn post_checkout_name() -> Seq<char> {
    seq!['p', 'o', 's', 't', '-', 'c', 'h', 'e', 'c', 'k', 'o', 'u', 't']
}

pub open spec fn dot_bare() -> Seq<char> {
    seq!['.', 'b', 'a', 'r', 'e']
}

/// The directory for new worktrees: the parent of `.bare`, or the common
/// directory itself.
pub open spec fn container_of(common: Seq<char>) -> Seq<char> {
    if file_name(common) == Some(dot_bare()) {
        match parent(common) {
            Some(q) => q,
            None => common,
        }
    } else {
        common
    }
}

/// The base branch: origin/HEAD when it names one, else origin/main, else
/// origin/master.
pub open spec fn base_choice(
    origin_head: Option<Seq<char>>,
    has_origin_main: bool,
    has_origin_master: bool,
) -> Option<Seq<char>> {
    if origin_head matches Some(h) && h.len() > 0 {
        origin_head
    } else if has_origin_main {
        Some(seq!['o', 'r', 'i', 'g', 'i', 'n', '/', 'm', 'a', 'i', 'n'])
    } else if has_origin_master {
        Some(seq!['o', 'r', 'i', 'g', 'i', 'n', '/', 'm', 'a', 's', 't', 'e', 'r'])
    } else {
        None
    }
}

fn literal(v: Vec<char>) -> (s: String)
    ensures
        s@ == v@,
{
    string_of(&v)
}

impl Repo {
    /// `<common>/shared`, the store.
    pub fn shared(&self) -> (p: String)
        ensures
            p@ == path_join(self.common@, shared_name()),
    {
        let name = literal(vec!['s', 'h', 'a', 'r', 'e', 'd']);
        proof {
            assert(name@ =~= shared_name());
        }
        join(self.common.as_str(), name.as_str())
    }

    /// `<common>/worktree-shared.toml`.
    pub fn manifest_path(&self) -> (p: String)
        ensures
            p@ == path_join(self.common@, manifest_name()),
    {
        let name = literal(
            vec![
                'w', 'o', 'r', 'k', 't', 'r', 'e', 'e', '-', 's', 'h', 'a', 'r', 'e', 'd', '.', 't',
                'o', 'm', 'l',
            ],
        );
        proof {
            assert(name@ =~= manifest_name());
        }
        join(self.common.as_str(), name.as_str())
    }

    /// `<common>/hooks/post-checkout`.
    pub fn hook_path(&self) -> (p: String)
        ensures
            p@ == path_join(path_join(self.common@, hooks_name()), post_checkout_name()),
    {
        let hooks = literal(vec!['h', 'o', 'o', 'k', 's']);
        let name = literal(
            vec!['p', 'o', 's', 't', '-', 'c', 'h', 'e', 'c', 'k', 'o', 'u', 't'],
        );
        proof {
            assert(hooks@ =~= hooks_name());
            assert(name@ =~= post_checkout_name());
        }
        let dir = join(self.common.as_str(), hooks.as_str());
        join(dir.as_str(), name.as_str())
    }

    /// The directory for new worktrees. It is beside `.bare`, or it is the
    /// bare repository itself in the first layout.
    pub fn container(&self) -> (p: String)
        ensures
            p@ == container_of(self.common@),
    {
        match file_name_of(self.common.as_str()) {
            Some(n) => {
                let v = chars_of(n.as_str());
                if v.len() == 5 && v[0] == '.' && v[1] == 'b' && v[2] == 'a' && v[3] == 'r' && v[4]
                    == 'e' {
                    assert(n@ =~= dot_bare());
                    match parent_of(self.common.as_str()) {
                        Some(q) => q,
                        None => self.common.clone(),
                    }
                } else {
                    assert(n@ != dot_bare());
                    self.common.clone()
                }
            },
            None => self.common.clone(),
        }
    }

    /// Each worktree that `listing`, the output of `git worktree list
    /// --porcelain`, names. The list does not contain the bare repository.
    pub fn worktrees(&self, listing: &str) -> (ws: Vec<Worktree>)
        ensures
            worktree_views(ws@) == parse_worktree_list(listing@),
    {
        let text = chars_of(listing);
        let ls = lines_vec(&text);
        let wp = vec!['w', 'o', 'r', 'k', 't', 'r', 'e', 'e', ' '];
        let bp = vec![
            'b', 'r', 'a', 'n', 'c', 'h', ' ', 'r', 'e', 'f', 's', '/', 'h', 'e', 'a', 'd', 's', '/',
        ];
        assert(wp@ =~= worktree_prefix());
        assert(bp@ =~= branch_prefix());
        let mut found: Vec<Worktree> = Vec::new();
        let mut path: Option<Vec<char>> = None;
        let mut branch: Option<Vec<char>> = None;
        let mut bare = false;
        let ghost all = views(ls@);
        let mut i: usize = 0;
        assert(all.skip(0) =~= all);
        assert(worktree_views(found@) =~= Seq::<WorktreeView>::empty());
        while i < ls.len()
            invariant
                i <= ls.len(),
                all == views(ls@),
                all == lines(text@),
                text@ == listing@,
                wp@ == worktree_prefix(),
                bp@ == branch_prefix(),
                list_run(list_start(), all) == list_run(
                    state_of(found@, path, branch, bare),
                    all.skip(i as int),
                ),
            decreases ls.len() - i,
        {
            let line = &ls[i];
            let ghost st = state_of(found@, path, branch, bare);
            assert(all.skip(i as int).drop_first() =~= all.skip(i + 1));
            assert(all.skip(i as int)[0] == line@);
            if line.len() == 0 {
                flush_into(&mut found, path, branch, bare);
                path = None;
                branch = None;
                bare = false;
            } else if let Some(p) = strip_prefix_vec(line, wp.as_slice()) {
                flush_into(&mut found, path, branch, bare);
                path = Some(p);
                branch = None;
                bare = false;
            } else if let Some(b) = strip_prefix_vec(line, bp.as_slice()) {
                branch = Some(b);
            } else if line.len() == 4 && line[0] == 'b' && line[1] == 'a' && line[2] == 'r'
                && line[3] == 'e' {
                assert(line@ =~= bare_word());
                bare = true;
            } else {
                assert(line@ != bare_word());
            }
            assert(state_of(found@, path, branch, bare) == list_step(st, line@));
            i += 1;
        }
        flush_into(&mut found, path, branch, bare);
        assert(all.skip(ls.len() as int) =~= Seq::<Seq<char>>::empty());
        found
    }

    /// The base branch for a new branch. It comes from the HEAD of the
    /// remote (`origin_head`, what `git symbolic-ref --short
    /// refs/remotes/origin/HEAD` gave, if it succeeded), else from the refs
    /// origin/main and origin/master that are present.
    pub fn default_base(
        &self,
        origin_head: Option<String>,
        has_origin_main: bool,
        has_origin_master: bool,
    ) -> (r: Result<String, RepoError>)
        ensures
            match r {
                Ok(b) => base_choice(opt_view(origin_head), has_origin_main, has_origin_master)
                    == Some(b@),
                Err(e) => base_choice(opt_view(origin_head), has_origin_main, has_origin_master)
                    is None && e is NoBase,
            },
    {
        if let Some(h) = origin_head {
            if h.as_str().unicode_len() > 0 {
                return Ok(h);
            }
        }
        if has_origin_main {
            let b = literal(vec!['o', 'r', 'i', 'g', 'i', 'n', '/', 'm', 'a', 'i', 'n']);
            assert(b@ =~= seq!['o', 'r', 'i', 'g', 'i', 'n', '/', 'm', 'a', 'i', 'n']);
            return Ok(b);
        }
        if has_origin_master {
            let b = literal(vec!['o', 'r', 'i', 'g', 'i', 'n', '/', 'm', 'a', 's', 't', 'e', 'r']);
            assert(b@ =~= seq!['o', 'r', 'i', 'g', 'i', 'n', '/', 'm', 'a', 's', 't', 'e', 'r']);
            return Ok(b);
        }
        Err(RepoError::NoBase)
    }

    /// Refuse a repository that `wt` does not control. `is_managed` says
    /// whether its `worktree-shared.toml` is present.
    pub fn require_managed(&self, is_managed: bool) -> (r: Result<(), RepoError>)
        ensures
            r is Ok <==> is_managed,
            r matches Err(RepoError::NotManaged { common }) ==> common@ == self.common@,
            r matches Err(e) ==> e is NotManaged,
    {
        if !is_managed {
            return Err(RepoError::NotManaged { common: self.common.clone() });
        }
        Ok(())
    }
}

} // verus!
