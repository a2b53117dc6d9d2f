//! `wt share`: which entry of the worktree a path on the command line names,
//! and whether the tool may move it into the store.

use vstd::prelude::*;
use crate::path::{
    is_absolute, join as path_join_exec, path_components, path_components_of, path_join, render,
    render_from, starts_with_pieces, with_head,
};
use crate::text::{
    chars_of, copy_chars, join_strings, join_with, lines, lines_vec, split_all, split_all_vec, split_once, string_of,
    strings_of, views,
};

verus! {

/// One segment of a path read into the stack of segments: an empty segment
/// and `.` change nothing, `..` drops the last segment, and any other
/// segment is pushed.
pub open spec fn norm_step(stack: Seq<Seq<char>>, piece: Seq<char>) -> Seq<Seq<char>> {
    if piece.len() == 0 || piece == seq!['.'] {
        stack
    } else if piece == seq!['.', '.'] {
        if stack.len() > 0 {
            stack.drop_last()
        } else {
            stack
        }
    } else {
        stack.push(piece)
    }
}

pub open spec fn norm_run(stack: Seq<Seq<char>>, pieces: Seq<Seq<char>>) -> Seq<Seq<char>>
    decreases pieces.len(),
{
    if pieces.len() == 0 {
        stack
    } else {
        norm_run(norm_step(stack, pieces[0]), pieces.drop_first())
    }
}

/// The segments of a path with `.` and `..` resolved.
pub open spec fn normal_segments(p: Seq<char>) -> Seq<Seq<char>> {
    norm_run(Seq::empty(), split_all(p, '/'))
}

/// The components of the path with `.` and `..` resolved: the root for an
/// absolute path, then the segments.
pub open spec fn normal_components(p: Seq<char>) -> Seq<Seq<char>> {
    if is_absolute(p) {
        seq![seq!['/']] + normal_segments(p)
    } else {
        normal_segments(p)
    }
}

#[derive(Debug, Clone)]
pub enum EntryError {
    /// The path is not below the top directory of the worktree.
    NotInWorktree { raw: String, toplevel: String },
    /// The path is the top directory itself.
    TopDirectory,
}

pub open spec fn entry_error_text(e: EntryError) -> Seq<char> {
    match e {
        EntryError::NotInWorktree { raw, toplevel } => raw@ + " is not in the worktree at "@
            + toplevel@,
        EntryError::TopDirectory => "wt cannot share the top directory of the worktree"@,
    }
}

impl EntryError {
    pub fn message(&self) -> (m: String)
        ensures
            m@ == entry_error_text(*self),
    {
        match self {
            EntryError::NotInWorktree { raw, toplevel } => {
                let mut m = raw.clone();
                m.append(" is not in the worktree at ");
                m.append(toplevel.as_str());
                m
            },
            EntryError::TopDirectory => String::from_str(
                "wt cannot share the top directory of the worktree",
            ),
        }
    }
}

/// The entry that `raw`, a path given in `cwd`, names in the worktree at
/// `toplevel`: the components of its normal form below the components of
/// `toplevel`.
pub open spec fn entry_segments(toplevel: Seq<char>, cwd: Seq<char>, raw: Seq<char>) -> Option<
    Seq<Seq<char>>,
> {
    let normal = normal_components(path_join(cwd, raw));
    let top = path_components(toplevel);
    if top.len() <= normal.len() && normal.take(top.len() as int) == top {
        Some(normal.skip(top.len() as int))
    } else {
        None
    }
}

fn normalize(pieces: &Vec<Vec<char>>) -> (r: Vec<Vec<char>>)
    ensures
        views(r@) == norm_run(Seq::empty(), views(pieces@)),
{
    let ghost ps = views(pieces@);
    let mut stack: Vec<Vec<char>> = Vec::new();
    let mut i: usize = 0;
    assert(ps.skip(0) =~= ps);
    assert(views(stack@) =~= Seq::<Seq<char>>::empty());
    while i < pieces.len()
        invariant
            i <= pieces.len(),
            ps == views(pieces@),
            norm_run(Seq::empty(), ps) == norm_run(views(stack@), ps.skip(i as int)),
        decreases pieces.len() - i,
    {
        let p = &pieces[i];
        let ghost before = views(stack@);
        assert(ps.skip(i as int)[0] == p@);
        assert(ps.skip(i as int).drop_first() =~= ps.skip(i + 1));
        if p.len() == 0 || (p.len() == 1 && p[0] == '.') {
            assert(p.len() == 1 ==> p@ =~= seq!['.']);
        } else if p.len() == 2 && p[0] == '.' && p[1] == '.' {
            assert(p@ =~= seq!['.', '.']);
            assert(p@ != seq!['.']);
            if stack.len() > 0 {
                stack.pop();
                assert(views(stack@) =~= before.drop_last());
            }
        } else {
            assert(p.len() == 1 ==> p@ != seq!['.']);
            assert(p.len() == 2 ==> p@ != seq!['.', '.']);
            let q = copy_chars(p);
            stack.push(q);
            assert(views(stack@) =~= before.push(p@));
        }
        i += 1;
    }
    assert(ps.skip(i as int) =~= Seq::<Seq<char>>::empty());
    stack
}

/// Change a path from the user into a path that is relative to the worktree.
///
/// `.` and `..` leave the path; the path does not need to exist.
pub fn relative_entry(toplevel: &str, cwd: &str, raw: &str) -> (r: Result<String, EntryError>)
    ensures
        match entry_segments(toplevel@, cwd@, raw@) {
            None => r matches Err(EntryError::NotInWorktree { raw: r_raw, toplevel: r_top })
                && r_raw@ == raw@ && r_top@ == toplevel@,
            Some(rest) => if rest.len() == 0 {
                r matches Err(EntryError::TopDirectory)
            } else {
                r matches Ok(e) && e@ == render(rest)
            },
        },
{
    let joined = path_join_exec(cwd, raw);
    let jv = chars_of(joined.as_str());
    let pieces = split_all_vec(&jv, '/');
    let segs = normalize(&pieces);
    assert(views(segs@) == normal_segments(joined@));
    let normal = if jv.len() > 0 && jv[0] == '/' {
        let head = vec!['/'];
        assert(head@ =~= seq!['/']);
        with_head(head, &segs)
    } else {
        segs
    };
    assert(views(normal@) == normal_components(path_join(cwd@, raw@)));
    let top = path_components_of(toplevel);
    if !starts_with_pieces(&normal, &top) {
        return Err(
            EntryError::NotInWorktree {
                raw: String::from_str(raw),
                toplevel: String::from_str(toplevel),
            },
        );
    }
    if normal.len() == top.len() {
        assert(views(normal@).skip(top.len() as int).len() == 0);
        return Err(EntryError::TopDirectory);
    }
    Ok(render_from(&normal, top.len()))
}

/// A segment that names an entry: not empty, not `.` and not `..`, and
/// without a `/`.
pub open spec fn plain_segment(p: Seq<char>) -> bool {
    &&& p.len() > 0
    &&& p != seq!['.']
    &&& p != seq!['.', '.']
    &&& forall|j: int| 0 <= j < p.len() ==> p[j] != '/'
}

/// The pieces of a text cut at `c` hold no `c`.
proof fn lemma_split_once_free(s: Seq<char>, c: char)
    ensures
        split_once(s, c) matches Some((a, b)) ==> (forall|j: int| 0 <= j < a.len() ==> a[j] != c)
            && b.len() < s.len(),
        split_once(s, c) is None ==> forall|j: int| 0 <= j < s.len() ==> s[j] != c,
    decreases s.len(),
{
    if s.len() > 0 && s[0] != c {
        lemma_split_once_free(s.drop_first(), c);
        if let Some((a, b)) = split_once(s.drop_first(), c) {
            assert forall|j: int| 0 <= j < a.len() + 1 implies (seq![s[0]] + a)[j] != c by {
                if j > 0 {
                    assert((seq![s[0]] + a)[j] == a[j - 1]);
                }
            }
        } else {
            assert forall|j: int| 0 <= j < s.len() implies s[j] != c by {
                if j > 0 {
                    assert(s[j] == s.drop_first()[j - 1]);
                }
            }
        }
    }
}

proof fn lemma_split_all_free(s: Seq<char>, c: char)
    ensures
        forall|i: int, j: int|
            0 <= i < split_all(s, c).len() && 0 <= j < split_all(s, c)[i].len() ==> split_all(
                s,
                c,
            )[i][j] != c,
    decreases s.len(),
{
    lemma_split_once_free(s, c);
    match split_once(s, c) {
        Some((a, b)) => {
            if b.len() < s.len() {
                lemma_split_all_free(b, c);
                let all = split_all(s, c);
                assert(all == seq![a] + split_all(b, c));
                assert forall|i: int, j: int| 0 <= i < all.len() && 0 <= j < all[i].len() implies all[i][j]
                    != c by {
                    if i > 0 {
                        assert(all[i] == split_all(b, c)[i - 1]);
                    }
                }
            }
        },
        None => {},
    }
}

proof fn lemma_norm_run_plain(stack: Seq<Seq<char>>, pieces: Seq<Seq<char>>)
    requires
        forall|i: int| 0 <= i < stack.len() ==> plain_segment(#[trigger] stack[i]),
        forall|i: int, j: int| 0 <= i < pieces.len() && 0 <= j < pieces[i].len() ==> pieces[i][j] != '/',
    ensures
        forall|i: int|
            0 <= i < norm_run(stack, pieces).len() ==> plain_segment(#[trigger] norm_run(stack, pieces)[i]),
    decreases pieces.len(),
{
    if pieces.len() > 0 {
        let piece = pieces[0];
        let next = norm_step(stack, piece);
        assert forall|i: int| 0 <= i < next.len() implies plain_segment(#[trigger] next[i]) by {
            if piece.len() == 0 || piece == seq!['.'] {
            } else if piece == seq!['.', '.'] {
                if stack.len() > 0 {
                    assert(next[i] == stack[i]);
                }
            } else {
                if i < stack.len() {
                    assert(next[i] == stack[i]);
                } else {
                    assert(next[i] == piece);
                    assert forall|j: int| 0 <= j < piece.len() implies piece[j] != '/' by {
                        assert(pieces[0][j] != '/');
                    }
                }
            }
        }
        let later = pieces.drop_first();
        assert forall|i: int, j: int| 0 <= i < later.len() && 0 <= j < later[i].len() implies later[i][j]
            != '/' by {
            assert(later[i] == pieces[i + 1]);
        }
        lemma_norm_run_plain(next, later);
        assert(norm_run(stack, pieces) == norm_run(next, later));
    }
}

/// The entry that `wt share` stores has no root, no `.`, no `..` and no
/// empty segment: the path leaves the worktree neither up nor sideways.
/// This holds for each `toplevel` that has a component, which is each path
/// but the empty one.
pub proof fn law_entry_segments_are_plain(toplevel: Seq<char>, cwd: Seq<char>, raw: Seq<char>)
    requires
        path_components(toplevel).len() > 0,
    ensures
        entry_segments(toplevel, cwd, raw) matches Some(rest) ==> forall|i: int|
            0 <= i < rest.len() ==> plain_segment(#[trigger] rest[i]),
{
    let joined = path_join(cwd, raw);
    lemma_split_all_free(joined, '/');
    lemma_norm_run_plain(Seq::empty(), split_all(joined, '/'));
    let segs = normal_segments(joined);
    let normal = normal_components(joined);
    let top = path_components(toplevel);
    if entry_segments(toplevel, cwd, raw) is Some {
        let rest = normal.skip(top.len() as int);
        assert forall|i: int| 0 <= i < rest.len() implies plain_segment(#[trigger] rest[i]) by {
            assert(rest[i] == normal[i + top.len()]);
            if is_absolute(joined) {
                assert(normal[i + top.len()] == segs[i + top.len() - 1]);
            } else {
                assert(normal[i + top.len()] == segs[i + top.len()]);
            }
        }
    }
}

/// What the tool found out about one path before it moves it.
#[derive(Debug, Clone)]
pub struct ShareFacts {
    /// The manifest has the entry already.
    pub in_manifest: bool,
    /// What `git ls-files -- <entry>` printed: the files of git below the
    /// path.
    pub git_files: String,
    /// `git check-ignore` says that git ignores the path.
    pub ignored: bool,
    /// The path is present in the worktree.
    pub present: bool,
    /// The path is a link.
    pub is_link: bool,
    /// The store already has the entry.
    pub in_store: bool,
}

/// Why the tool refuses to share a path.
#[derive(Debug, Clone)]
pub enum ShareError {
    InManifest,
    /// The path holds a file that git has; `first` is one of them.
    HasGitFile { first: String },
    NotIgnored,
    Absent { toplevel: String },
    AlreadyLink,
    InStore { entry: String },
}

pub open spec fn share_error_text(e: ShareError) -> Seq<char> {
    match e {
        ShareError::InManifest => "the manifest contains this path"@,
        ShareError::HasGitFile { first } => "this path contains a tracked file, for example "@
            + first@ + "\n  git supplies each tracked file. give the ignored path instead"@,
        ShareError::NotIgnored => "git does not ignore this path. wt controls only the ignored paths"@,
        ShareError::Absent { toplevel } => "this path is not in "@ + toplevel@,
        ShareError::AlreadyLink => "this path is already a link"@,
        ShareError::InStore { entry } => "the store already contains shared/"@ + entry@,
    }
}

impl ShareError {
    pub fn message(&self) -> (m: String)
        ensures
            m@ == share_error_text(*self),
    {
        match self {
            ShareError::InManifest => String::from_str("the manifest contains this path"),
            ShareError::HasGitFile { first } => {
                let mut m = String::from_str("this path contains a tracked file, for example ");
                m.append(first.as_str());
                m.append("\n  git supplies each tracked file. give the ignored path instead");
                m
            },
            ShareError::NotIgnored => String::from_str(
                "git does not ignore this path. wt controls only the ignored paths",
            ),
            ShareError::Absent { toplevel } => {
                let mut m = String::from_str("this path is not in ");
                m.append(toplevel.as_str());
                m
            },
            ShareError::AlreadyLink => String::from_str("this path is already a link"),
            ShareError::InStore { entry } => {
                let mut m = String::from_str("the store already contains shared/");
                m.append(entry.as_str());
                m
            },
        }
    }
}

/// The first line of a text, or the empty text when it has none.
pub open spec fn first_line(t: Seq<char>) -> Seq<char> {
    if lines(t).len() > 0 {
        lines(t)[0]
    } else {
        Seq::empty()
    }
}

/// The checks, in their order: the manifest must not have the entry; the
/// path must hold no file of git (git supplies each such path, and a
/// link over one hides the checkout); git must ignore it; it must be
/// present, and not a link; the store must not have it.
pub open spec fn share_check_spec(
    f: ShareFacts,
    toplevel: Seq<char>,
    entry: Seq<char>,
) -> Result<(), ShareError> {
    if f.in_manifest {
        Err(ShareError::InManifest)
    } else if f.git_files@.len() > 0 {
        Err(ShareError::HasGitFile { first: arbitrary() })
    } else if !f.ignored {
        Err(ShareError::NotIgnored)
    } else if !f.present {
        Err(ShareError::Absent { toplevel: arbitrary() })
    } else if f.is_link {
        Err(ShareError::AlreadyLink)
    } else if f.in_store {
        Err(ShareError::InStore { entry: arbitrary() })
    } else {
        Ok(())
    }
}

/// The refusal matches the first check that fails, with its details.
pub open spec fn share_check_ok(
    f: ShareFacts,
    toplevel: Seq<char>,
    entry: Seq<char>,
    r: Result<(), ShareError>,
) -> bool {
    match share_check_spec(f, toplevel, entry) {
        Ok(()) => r is Ok,
        Err(ShareError::InManifest) => r matches Err(ShareError::InManifest),
        Err(ShareError::HasGitFile { .. }) => r matches Err(ShareError::HasGitFile { first })
            && first@ == first_line(f.git_files@),
        Err(ShareError::NotIgnored) => r matches Err(ShareError::NotIgnored),
        Err(ShareError::Absent { .. }) => r matches Err(ShareError::Absent { toplevel: t })
            && t@ == toplevel,
        Err(ShareError::AlreadyLink) => r matches Err(ShareError::AlreadyLink),
        Err(ShareError::InStore { .. }) => r matches Err(ShareError::InStore { entry: e }) && e@
            == entry,
    }
}

/// Decide whether the tool may move the path `entry` of the worktree at
/// `toplevel` into the store.
pub fn share_check(f: &ShareFacts, toplevel: &str, entry: &str) -> (r: Result<(), ShareError>)
    ensures
        share_check_ok(*f, toplevel@, entry@, r),
{
    if f.in_manifest {
        return Err(ShareError::InManifest);
    }
    let t = chars_of(f.git_files.as_str());
    if t.len() > 0 {
        let ls = lines_vec(&t);
        let first = if ls.len() > 0 {
            assert(views(ls@)[0] == ls@[0]@);
            string_of(&ls[0])
        } else {
            String::new()
        };
        return Err(ShareError::HasGitFile { first });
    }
    if !f.ignored {
        return Err(ShareError::NotIgnored);
    }
    if !f.present {
        return Err(ShareError::Absent { toplevel: String::from_str(toplevel) });
    }
    if f.is_link {
        return Err(ShareError::AlreadyLink);
    }
    if f.in_store {
        return Err(ShareError::InStore { entry: String::from_str(entry) });
    }
    Ok(())
}

/// The tool never moves a path that holds a file of git, a path that git
/// does not ignore, a link, or a path that the store has already.
pub proof fn law_share_refuses_unsafe_paths(f: ShareFacts, toplevel: Seq<char>, entry: Seq<char>)
    ensures
        share_check_spec(f, toplevel, entry) is Ok ==> {
            &&& !f.in_manifest
            &&& f.git_files@.len() == 0
            &&& f.ignored
            &&& f.present
            &&& !f.is_link
            &&& !f.in_store
        },
{
}

} // verus!
