//! `wt clone`: the name of the directory for a new clone.

use vstd::prelude::*;
use crate::text::{chars_of, string_of, slice_of, trim_end_char, trim_end_char_vec, trim_end_seq, trim_end_seq_vec};
use crate::config::dot_git;

verus! {

pub open spec fn is_url_sep(c: char) -> bool {
    c == '/' || c == ':'
}

/// The text after the last `/` or `:`.
pub open spec fn after_last_sep(s: Seq<char>) -> Seq<char>
    decreases s.len(),
{
    if s.len() == 0 {
        s
    } else if is_url_sep(s.last()) {
        Seq::empty()
    } else {
        after_last_sep(s.drop_last()).push(s.last())
    }
}

/// The last segment of the URL, without trailing slashes and `.git`.
pub open spec fn default_name_spec(url: Seq<char>) -> Seq<char> {
    trim_end_seq(after_last_sep(trim_end_char(url, '/')), dot_git())
}

proof fn lemma_after_last_sep_at(s: Seq<char>, i: int)
    requires
        0 <= i <= s.len(),
        i > 0 ==> is_url_sep(s[i - 1]),
        forall|j: int| i <= j < s.len() ==> !is_url_sep(s[j]),
    ensures
        after_last_sep(s) == s.skip(i),
    decreases s.len(),
{
    if s.len() == 0 {
    } else if i == s.len() {
        assert(s.skip(i) =~= Seq::<char>::empty());
    } else {
        lemma_after_last_sep_at(s.drop_last(), i);
        assert(s.drop_last().skip(i).push(s.last()) =~= s.skip(i));
    }
}

/// The directory name for a clone of `url`: `git@host:owner/repo.git`
/// gives `repo`.
pub fn default_name(url: &str) -> (r: String)
    ensures
        r@ == default_name_spec(url@),
{
    let v = chars_of(url);
    let t = trim_end_char_vec(&v, '/');
    let mut i = t.len();
    while i > 0 && t[i - 1] != '/' && t[i - 1] != ':'
        invariant
            i <= t.len(),
            forall|j: int| i <= j < t.len() ==> !is_url_sep(t@[j]),
        decreases i,
    {
        i -= 1;
    }
    proof {
        lemma_after_last_sep_at(t@, i as int);
    }
    let seg = slice_of(&t, i, t.len());
    assert(seg@ =~= t@.skip(i as int));
    let git = vec!['.', 'g', 'i', 't'];
    assert(git@ =~= dot_git());
    let name = trim_end_seq_vec(&seg, git.as_slice());
    string_of(&name)
}

/// The name of a clone is the last segment of the URL, whole: after the last
/// `/` or `:`, with one `.git` at its end taken off and nothing else. For a
/// name `n` with no `/` or `:` that does not end with `.git`, both
/// `<prefix>/<n>.git` and `<prefix>/<n>` give `n` (and so with `:`).
pub proof fn law_clone_name_is_the_last_segment(prefix: Seq<char>, sep: char, n: Seq<char>)
    requires
        sep == '/' || sep == ':',
        n.len() > 0,
        forall|j: int| 0 <= j < n.len() ==> n[j] != '/' && n[j] != ':',
        !(n.len() >= 4 && n.skip(n.len() - 4) == seq!['.', 'g', 'i', 't']),
    ensures
        default_name_spec(prefix + seq![sep] + n + seq!['.', 'g', 'i', 't']) == n,
        default_name_spec(prefix + seq![sep] + n) == n,
{
    let g = seq!['.', 'g', 'i', 't'];
    assert(g =~= dot_git());
    // n itself keeps all of its text.
    assert(!crate::text::ends_with(n, g));
    assert(trim_end_seq(n, g) == n);
    // With `.git`.
    let u = prefix + seq![sep] + n + g;
    let i: int = prefix.len() as int + 1;
    assert(u.last() == 't');
    assert(trim_end_char(u, '/') == u);
    assert forall|j: int| i <= j < u.len() implies !is_url_sep(u[j]) by {
        if j < i + n.len() {
            assert(u[j] == n[j - i]);
        } else {
            assert(u[j] == g[j - i - n.len()]);
        }
    }
    assert(u[i - 1] == sep);
    lemma_after_last_sep_at(u, i);
    let ng = n + g;
    assert(u.skip(i) =~= ng);
    assert(crate::text::ends_with(ng, g)) by {
        assert(ng.skip(ng.len() - 4) =~= g);
    }
    assert(ng.take(ng.len() - g.len()) =~= n);
    assert(trim_end_seq(ng, g) == trim_end_seq(n, g));
    // Without `.git`.
    let v = prefix + seq![sep] + n;
    assert(v.last() == n.last());
    assert(trim_end_char(v, '/') == v);
    assert forall|j: int| i <= j < v.len() implies !is_url_sep(v[j]) by {
        assert(v[j] == n[j - i]);
    }
    assert(v[i - 1] == sep);
    lemma_after_last_sep_at(v, i);
    assert(v.skip(i) =~= n);
}

} // verus!
