//! Paths as text, separated by `/`.
//!
//! A path is read as `std::path::Path` reads it on Unix: by its
//! components. Where a function gives a path back, it writes the components
//! with one `/` between two of them, which is the same path.

use vstd::prelude::*;
use crate::text::{
    chars_eq, chars_of, concat, copy_chars, join_strings, join_with, slice_of, split_all, split_all_vec, string_of,
    string_views, trim_end_char, trim_end_char_vec, views,
};

verus! {

/// The text after the last `c` (all of it when there is none).
pub open spec fn after_last(s: Seq<char>, c: char) -> Seq<char>
    decreases s.len(),
{
    if s.len() == 0 {
        s
    } else if s.last() == c {
        Seq::empty()
    } else {
        after_last(s.drop_last(), c).push(s.last())
    }
}

pub open spec fn is_absolute(p: Seq<char>) -> bool {
    p.len() > 0 && p[0] == '/'
}

/// A segment as a component of a path: empty segments and `.` are none.
pub open spec fn keep_step(stack: Seq<Seq<char>>, piece: Seq<char>) -> Seq<Seq<char>> {
    if piece.len() == 0 || piece == seq!['.'] {
        stack
    } else {
        stack.push(piece)
    }
}

pub open spec fn keep_run(stack: Seq<Seq<char>>, pieces: Seq<Seq<char>>) -> Seq<Seq<char>>
    decreases pieces.len(),
{
    if pieces.len() == 0 {
        stack
    } else {
        keep_run(keep_step(stack, pieces[0]), pieces.drop_first())
    }
}

/// The segments of a path that name something: empty segments and `.` are
/// none, `..` is kept as it is.
pub open spec fn segments(p: Seq<char>) -> Seq<Seq<char>> {
    keep_run(Seq::empty(), split_all(p, '/'))
}

/// A relative path whose first segment is `.`.
pub open spec fn leading_dot(p: Seq<char>) -> bool {
    (p.len() == 1 && p[0] == '.') || (p.len() >= 2 && p[0] == '.' && p[1] == '/')
}

/// The components of a path, as `Path::components` gives them: the root,
/// written `/`, for an absolute path; `.` for a relative path that begins
/// with it; then each segment that names something. A `.` elsewhere is no
/// component.
pub open spec fn path_components(p: Seq<char>) -> Seq<Seq<char>> {
    if is_absolute(p) {
        seq![seq!['/']] + segments(p)
    } else if leading_dot(p) {
        seq![seq!['.']] + segments(p)
    } else {
        segments(p)
    }
}

/// A path from its components, one `/` between two of them.
pub open spec fn render(cs: Seq<Seq<char>>) -> Seq<char> {
    if cs.len() > 0 && cs[0] == seq!['/'] {
        seq!['/'] + join_with(cs.drop_first(), "/"@)
    } else {
        join_with(cs, "/"@)
    }
}

pub fn components(pieces: &Vec<Vec<char>>) -> (r: Vec<Vec<char>>)
    ensures
        views(r@) == keep_run(Seq::empty(), views(pieces@)),
{
    let ghost ps = views(pieces@);
    let mut stack: Vec<Vec<char>> = Vec::new();
    let mut i: usize = 0;
    assert(ps.skip(0) =~= ps);
    assert(views(stack@) =~= Seq::<Seq<char>>::empty());
    while i < pieces.len()
        invariant
            i <= pieces.len(),
            ps == views(pieces@),
            keep_run(Seq::empty(), ps) == keep_run(views(stack@), ps.skip(i as int)),
        decreases pieces.len() - i,
    {
        let p = &pieces[i];
        let ghost before = views(stack@);
        assert(ps.skip(i as int)[0] == p@);
        assert(ps.skip(i as int).drop_first() =~= ps.skip(i + 1));
        if p.len() == 0 || (p.len() == 1 && p[0] == '.') {
            assert(p.len() == 1 ==> p@ =~= seq!['.']);
        } else {
            assert(p.len() == 1 ==> p@ != seq!['.']);
            let q = copy_chars(p);
            stack.push(q);
            assert(views(stack@) =~= before.push(p@));
        }
        i += 1;
    }
    assert(ps.skip(i as int) =~= Seq::<Seq<char>>::empty());
    stack
}

/// The first pieces of `v` are the pieces of `p`.
pub fn starts_with_pieces(v: &Vec<Vec<char>>, p: &Vec<Vec<char>>) -> (r: bool)
    ensures
        r == (p@.len() <= v@.len() && views(v@).take(p@.len() as int) == views(p@)),
{
    if p.len() > v.len() {
        return false;
    }
    let ghost vv = views(v@);
    let ghost pv = views(p@);
    let mut i: usize = 0;
    while i < p.len()
        invariant
            p.len() <= v.len(),
            i <= p.len(),
            vv == views(v@),
            pv == views(p@),
            forall|j: int| 0 <= j < i ==> vv[j] == pv[j],
        decreases p.len() - i,
    {
        assert(vv[i as int] == v@[i as int]@ && pv[i as int] == p@[i as int]@);
        if !chars_eq(&v[i], &p[i]) {
            assert(vv.take(pv.len() as int)[i as int] != pv[i as int]);
            return false;
        }
        i += 1;
    }
    assert(vv.take(pv.len() as int) =~= pv);
    true
}

/// A copy of `v`, with `head` before its pieces.
pub fn with_head(head: Vec<char>, v: &Vec<Vec<char>>) -> (r: Vec<Vec<char>>)
    ensures
        views(r@) == seq![head@] + views(v@),
{
    let ghost hv = head@;
    let mut r: Vec<Vec<char>> = Vec::new();
    r.push(head);
    let mut i: usize = 0;
    assert(views(r@) =~= seq![hv] + views(v@).take(0));
    while i < v.len()
        invariant
            i <= v.len(),
            views(r@) == seq![hv] + views(v@).take(i as int),
        decreases v.len() - i,
    {
        let ghost before = views(r@);
        let piece = copy_chars(&v[i]);
        r.push(piece);
        assert(views(r@) =~= before.push(piece@));
        assert(views(v@).take(i + 1) =~= views(v@).take(i as int).push(v@[i as int]@));
        i += 1;
    }
    assert(views(v@).take(i as int) =~= views(v@));
    r
}

/// The components of `p`, as `Path::components` gives them.
pub fn path_components_of(p: &str) -> (r: Vec<Vec<char>>)
    ensures
        views(r@) == path_components(p@),
{
    let v = chars_of(p);
    let pieces = split_all_vec(&v, '/');
    let segs = components(&pieces);
    assert(views(segs@) == segments(p@));
    if v.len() > 0 && v[0] == '/' {
        assert(is_absolute(p@));
        let head = vec!['/'];
        assert(head@ =~= seq!['/']);
        with_head(head, &segs)
    } else if (v.len() == 1 && v[0] == '.') || (v.len() >= 2 && v[0] == '.' && v[1] == '/') {
        assert(!is_absolute(p@) && leading_dot(p@));
        let head = vec!['.'];
        assert(head@ =~= seq!['.']);
        with_head(head, &segs)
    } else {
        assert(!is_absolute(p@) && !leading_dot(p@));
        segs
    }
}

/// The pieces of `v` from the index `k` on, as texts.
fn strings_from(v: &Vec<Vec<char>>, k: usize) -> (r: Vec<String>)
    requires
        k <= v.len(),
    ensures
        string_views(r@) == views(v@).skip(k as int),
{
    let ghost vv = views(v@);
    let mut r: Vec<String> = Vec::new();
    let mut i: usize = k;
    while i < v.len()
        invariant
            k <= i <= v.len(),
            vv == views(v@),
            string_views(r@) == vv.subrange(k as int, i as int),
        decreases v.len() - i,
    {
        let ghost before = string_views(r@);
        assert(vv[i as int] == v@[i as int]@);
        let s = string_of(&v[i]);
        r.push(s);
        assert(string_views(r@) =~= before.push(s@));
        assert(vv.subrange(k as int, i + 1) =~= vv.subrange(k as int, i as int).push(vv[i as int]));
        i += 1;
    }
    assert(vv.subrange(k as int, i as int) =~= vv.skip(k as int));
    r
}

/// The path of the components of `v` from the index `k` on.
pub fn render_from(v: &Vec<Vec<char>>, k: usize) -> (r: String)
    requires
        k <= v.len(),
    ensures
        r@ == render(views(v@).skip(k as int)),
{
    let ghost rest = views(v@).skip(k as int);
    if k < v.len() && v[k].len() == 1 && v[k][0] == '/' {
        assert(rest[0] == v@[k as int]@);
        assert(v@[k as int]@ =~= seq!['/']);
        let tail = strings_from(v, k + 1);
        assert(views(v@).skip(k + 1) =~= rest.drop_first());
        let joined = join_strings(&tail, "/");
        let mut r = String::from_str("/");
        r.append(joined.as_str());
        proof {
            reveal_strlit("/");
        }
        assert(r@ =~= seq!['/'] + join_with(rest.drop_first(), "/"@));
        r
    } else {
        assert(rest.len() > 0 ==> rest[0] == v@[k as int]@);
        assert(rest.len() > 0 && v@[k as int]@.len() == 1 ==> v@[k as int]@[0] == v[k as int]@[0]);
        assert(rest.len() > 0 ==> rest[0] != seq!['/']) by {
            if rest.len() > 0 && rest[0] == seq!['/'] {
                assert(v@[k as int]@.len() == 1);
                assert(v@[k as int]@[0] == '/');
            }
        }
        let parts = strings_from(v, k);
        join_strings(&parts, "/")
    }
}

/// `Path::starts_with`: the components of `base` begin the components of `p`.
pub open spec fn path_starts_with(p: Seq<char>, base: Seq<char>) -> bool {
    let a = path_components(p);
    let b = path_components(base);
    b.len() <= a.len() && a.take(b.len() as int) == b
}

pub fn path_starts_with_exec(p: &str, base: &str) -> (r: bool)
    ensures
        r == path_starts_with(p@, base@),
{
    let a = path_components_of(p);
    let b = path_components_of(base);
    starts_with_pieces(&a, &b)
}

/// `Path::strip_prefix`, shown: the components of `p` below `base`, or `p`
/// itself when `base` does not begin it.
pub open spec fn display_rel_spec(base: Seq<char>, p: Seq<char>) -> Seq<char> {
    if path_starts_with(p, base) {
        render(path_components(p).skip(path_components(base).len() as int))
    } else {
        p
    }
}

pub fn display_rel(base: &str, p: &str) -> (r: String)
    ensures
        r@ == display_rel_spec(base@, p@),
{
    let a = path_components_of(p);
    let b = path_components_of(base);
    if !starts_with_pieces(&a, &b) {
        return String::from_str(p);
    }
    render_from(&a, b.len())
}

/// `PathBuf::join`: an absolute part replaces the base; otherwise a `/`
/// goes between the two unless the base is empty or already ends with one.
pub open spec fn path_join(base: Seq<char>, part: Seq<char>) -> Seq<char> {
    if part.len() > 0 && part[0] == '/' {
        part
    } else if base.len() == 0 || base.last() == '/' {
        base + part
    } else {
        base + seq!['/'] + part
    }
}

/// `Path::file_name`: the last component, when it is a name (not the root,
/// `.` or `..`).
pub open spec fn file_name(p: Seq<char>) -> Option<Seq<char>> {
    let cs = path_components(p);
    if cs.len() == 0 {
        None
    } else {
        let last = cs.last();
        if last == seq!['/'] || last == seq!['.'] || last == seq!['.', '.'] {
            None
        } else {
            Some(last)
        }
    }
}

/// `Path::parent`: the path of each component but the last, and none for
/// the root or the empty path.
pub open spec fn parent(p: Seq<char>) -> Option<Seq<char>> {
    let cs = path_components(p);
    if cs.len() == 0 || cs.last() == seq!['/'] {
        None
    } else {
        Some(render(cs.drop_last()))
    }
}

pub proof fn lemma_after_last_at(s: Seq<char>, c: char, i: int)
    requires
        0 <= i <= s.len(),
        i > 0 ==> s[i - 1] == c,
        forall|j: int| i <= j < s.len() ==> s[j] != c,
    ensures
        after_last(s, c) == s.skip(i),
    decreases s.len(),
{
    if s.len() == 0 {
    } else if i == s.len() {
        assert(s.skip(i) =~= Seq::<char>::empty());
    } else {
        lemma_after_last_at(s.drop_last(), c, i);
        assert(s.drop_last().skip(i).push(s.last()) =~= s.skip(i));
    }
}

/// The index at which the text after the last `c` starts.
fn after_last_start(v: &Vec<char>, c: char) -> (i: usize)
    ensures
        i <= v.len(),
        after_last(v@, c) == v@.skip(i as int),
{
    let mut i = v.len();
    while i > 0 && v[i - 1] != c
        invariant
            i <= v.len(),
            forall|j: int| i <= j < v.len() ==> v@[j] != c,
        decreases i,
    {
        i -= 1;
    }
    proof {
        lemma_after_last_at(v@, c, i as int);
    }
    i
}

/// Join `part` to `base` as `PathBuf::join` does.
pub fn join(base: &str, part: &str) -> (r: String)
    ensures
        r@ == path_join(base@, part@),
{
    let b = chars_of(base);
    let p = chars_of(part);
    if p.len() > 0 && p[0] == '/' {
        string_of(&p)
    } else if b.len() == 0 || b[b.len() - 1] == '/' {
        string_of(&concat(&b, &p))
    } else {
        let slash = vec!['/'];
        let with = concat(&b, &slash);
        string_of(&concat(&with, &p))
    }
}

/// The last component of `path`, as `Path::file_name` gives it.
pub fn file_name_of(path: &str) -> (r: Option<String>)
    ensures
        match r {
            Some(n) => file_name(path@) == Some(n@),
            None => file_name(path@) is None,
        },
{
    let cs = path_components_of(path);
    if cs.len() == 0 {
        return None;
    }
    let last = &cs[cs.len() - 1];
    assert(views(cs@).last() == last@);
    if (last.len() == 1 && (last[0] == '/' || last[0] == '.')) || (last.len() == 2 && last[0]
        == '.' && last[1] == '.') {
        assert(last.len() == 1 && last[0] == '/' ==> last@ =~= seq!['/']);
        assert(last.len() == 1 && last[0] == '.' ==> last@ =~= seq!['.']);
        assert(last.len() == 2 ==> last@ =~= seq!['.', '.']);
        None
    } else {
        assert(last@ != seq!['/'] && last@ != seq!['.'] && last@ != seq!['.', '.']) by {
            if last@ == seq!['/'] || last@ == seq!['.'] {
                assert(last@.len() == 1);
            }
            if last@ == seq!['.', '.'] {
                assert(last@.len() == 2);
            }
        }
        Some(string_of(last))
    }
}

/// The path without its last component, as `Path::parent` gives it.
pub fn parent_of(path: &str) -> (r: Option<String>)
    ensures
        match r {
            Some(q) => parent(path@) == Some(q@),
            None => parent(path@) is None,
        },
{
    let mut cs = path_components_of(path);
    if cs.len() == 0 {
        return None;
    }
    let ghost all = views(cs@);
    let n = cs.len() - 1;
    assert(all.last() == cs@[n as int]@);
    if cs[n].len() == 1 && cs[n][0] == '/' {
        assert(cs@[n as int]@ =~= seq!['/']);
        return None;
    }
    assert(all.last() != seq!['/']) by {
        if all.last() == seq!['/'] {
            assert(cs@[n as int]@.len() == 1);
        }
    }
    cs.pop();
    assert(views(cs@) =~= all.drop_last());
    assert(views(cs@).skip(0) =~= views(cs@));
    Some(render_from(&cs, 0))
}

} // verus!
