//! The candidates that the shell completion offers.

use vstd::prelude::*;
use crate::cmd::prune::origin_slash;
use crate::manifest::{Manifest, links_contain};
use crate::order::{
    lemma_le_antisym, lemma_le_trans, lemma_text_order_total, sort_texts, sorted_texts, text_le,
    text_order,
};
use vstd::relations::sorted_by;
use vstd::seq_lib::to_multiset_contains;
use crate::text::{
    chars_eq, chars_of, copy_chars, lines, lines_vec, starts_with, string_of, string_views, strip_prefix_vec,
    trim_end_char, trim_end_char_vec, views,
};

verus! {

pub open spec fn head_word() -> Seq<char> {
    seq!['H', 'E', 'A', 'D']
}

/// The branch that one line of `git for-each-ref` names: `origin/x` and
/// `x` both name `x`; `HEAD` and the empty line name none.
pub open spec fn branch_of_line(line: Seq<char>) -> Option<Seq<char>> {
    let n = if starts_with(line, origin_slash()) {
        line.skip(7)
    } else {
        line
    };
    if n == head_word() || n.len() == 0 {
        None
    } else {
        Some(n)
    }
}

pub open spec fn branch_names(ls: Seq<Seq<char>>) -> Seq<Seq<char>>
    decreases ls.len(),
{
    if ls.len() == 0 {
        Seq::empty()
    } else {
        match branch_of_line(ls.last()) {
            Some(n) => branch_names(ls.drop_last()).push(n),
            None => branch_names(ls.drop_last()),
        }
    }
}

/// A sorted list with each run of equal texts kept once.
pub open spec fn dedup(s: Seq<Seq<char>>) -> Seq<Seq<char>>
    decreases s.len(),
{
    if s.len() == 0 {
        s
    } else if s.len() >= 2 && s[s.len() - 2] == s.last() {
        dedup(s.drop_last())
    } else {
        dedup(s.drop_last()).push(s.last())
    }
}

/// Each branch name of the listing, once, in order.
pub open spec fn branch_candidates(text: Seq<char>) -> Seq<Seq<char>> {
    dedup(sorted_texts(branch_names(lines(text))))
}

fn dedup_vec(s: &Vec<String>) -> (r: Vec<String>)
    ensures
        string_views(r@) == dedup(string_views(s@)),
{
    let ghost sv = string_views(s@);
    let mut r: Vec<String> = Vec::new();
    let mut i: usize = 0;
    assert(sv.take(0) =~= Seq::<Seq<char>>::empty());
    assert(string_views(r@) =~= Seq::<Seq<char>>::empty());
    while i < s.len()
        invariant
            i <= s.len(),
            sv == string_views(s@),
            string_views(r@) == dedup(sv.take(i as int)),
        decreases s.len() - i,
    {
        let ghost t = sv.take(i + 1);
        assert(t.drop_last() =~= sv.take(i as int));
        assert(t.last() == s@[i as int]@);
        let same = i > 0 && s[i - 1] == s[i];
        if i > 0 {
            assert(t[t.len() - 2] == s@[i - 1]@);
        }
        if !same {
            let ghost before = string_views(r@);
            r.push(s[i].clone());
            assert(string_views(r@) =~= before.push(s@[i as int]@));
        }
        i += 1;
    }
    assert(sv.take(i as int) =~= sv);
    r
}

/// Each local branch name and each remote branch name, once, sorted, from
/// `listing`, the output of `git for-each-ref --format=%(refname:short)
/// refs/heads refs/remotes/origin`.
pub fn branches(listing: &str) -> (r: Vec<String>)
    ensures
        string_views(r@) == branch_candidates(listing@),
{
    let text = chars_of(listing);
    let ls = lines_vec(&text);
    let ghost lv = views(ls@);
    let p = vec!['o', 'r', 'i', 'g', 'i', 'n', '/'];
    assert(p@ =~= origin_slash());
    let head = vec!['H', 'E', 'A', 'D'];
    assert(head@ =~= head_word());
    let mut names: Vec<String> = Vec::new();
    let mut i: usize = 0;
    assert(lv.take(0) =~= Seq::<Seq<char>>::empty());
    assert(string_views(names@) =~= Seq::<Seq<char>>::empty());
    while i < ls.len()
        invariant
            i <= ls.len(),
            lv == views(ls@),
            p@ == origin_slash(),
            head@ == head_word(),
            string_views(names@) == branch_names(lv.take(i as int)),
        decreases ls.len() - i,
    {
        let line = &ls[i];
        assert(lv.take(i + 1).drop_last() =~= lv.take(i as int));
        assert(lv.take(i + 1).last() == line@);
        let n = match strip_prefix_vec(line, p.as_slice()) {
            Some(rest) => rest,
            None => copy_chars(line),
        };
        if !chars_eq(&n, &head) && n.len() > 0 {
            let ghost before = string_views(names@);
            let s = string_of(&n);
            names.push(s);
            assert(string_views(names@) =~= before.push(n@));
        }
        i += 1;
    }
    assert(lv.take(i as int) =~= lv);
    let sorted = sort_texts(&names);
    dedup_vec(&sorted)
}

/// The paths of the listing that `wt share` accepts, each without its
/// trailing slash, that the manifest does not have.
pub open spec fn shareable_paths(ls: Seq<Seq<char>>, manifest: Seq<Seq<char>>) -> Seq<Seq<char>>
    decreases ls.len(),
{
    if ls.len() == 0 {
        Seq::empty()
    } else {
        let p = trim_end_char(ls.last(), '/');
        if p.len() > 0 && !manifest.contains(p) {
            shareable_paths(ls.drop_last(), manifest).push(p)
        } else {
            shareable_paths(ls.drop_last(), manifest)
        }
    }
}

/// Each path that `wt share` accepts, from `listing`, the output of `git
/// ls-files --others --ignored --exclude-standard --directory`: the paths
/// that git ignores, a whole directory as one entry. A path that the
/// manifest already has does not appear.
pub fn shareable(listing: &str, manifest: &Manifest) -> (r: Vec<String>)
    ensures
        string_views(r@) == shareable_paths(lines(listing@), string_views(manifest.link@)),
{
    let text = chars_of(listing);
    let ls = lines_vec(&text);
    let ghost lv = views(ls@);
    let ghost m = string_views(manifest.link@);
    let mut out: Vec<String> = Vec::new();
    let mut i: usize = 0;
    assert(lv.take(0) =~= Seq::<Seq<char>>::empty());
    assert(string_views(out@) =~= Seq::<Seq<char>>::empty());
    while i < ls.len()
        invariant
            i <= ls.len(),
            lv == views(ls@),
            m == string_views(manifest.link@),
            string_views(out@) == shareable_paths(lv.take(i as int), m),
        decreases ls.len() - i,
    {
        assert(lv.take(i + 1).drop_last() =~= lv.take(i as int));
        assert(lv.take(i + 1).last() == ls@[i as int]@);
        let p = trim_end_char_vec(&ls[i], '/');
        let s = string_of(&p);
        if p.len() > 0 && !links_contain(&manifest.link, s.as_str()) {
            let ghost before = string_views(out@);
            out.push(s);
            assert(string_views(out@) =~= before.push(p@));
        }
        i += 1;
    }
    assert(lv.take(i as int) =~= lv);
    out
}

proof fn lemma_dedup_props(s: Seq<Seq<char>>)
    requires
        sorted_by(s, text_order()),
    ensures
        increasing(dedup(s)),
        forall|x: Seq<char>| dedup(s).contains(x) <==> s.contains(x),
        s.len() > 0 ==> dedup(s).len() > 0 && dedup(s).last() == s.last(),
    decreases s.len(),
{
    if s.len() > 0 {
        let t = s.drop_last();
        assert(sorted_by(t, text_order()));
        lemma_dedup_props(t);
        let d = dedup(t);
        let x = s.last();
        assert forall|y: Seq<char>| s.contains(y) <==> t.contains(y) || y == x by {
            if s.contains(y) {
                let k = choose|k: int| 0 <= k < s.len() && s[k] == y;
                if k < t.len() {
                    assert(t[k] == y);
                }
            }
            if t.contains(y) {
                let k = choose|k: int| 0 <= k < t.len() && t[k] == y;
                assert(s[k] == y);
            }
            if y == x {
                assert(s[s.len() - 1] == y);
            }
        }
        if s.len() >= 2 && s[s.len() - 2] == x {
            assert(t.last() == x);
            assert(t.contains(x));
        } else {
            if t.len() > 0 {
                assert(s[s.len() - 2] == t.last());
                assert(text_order()(s[s.len() - 2], s[s.len() - 1]));
                assert(text_le(t.last(), x));
                assert(t.last() != x);
                assert(d.last() == t.last());
            }
            let e = d.push(x);
            assert forall|y: Seq<char>| e.contains(y) <==> d.contains(y) || y == x by {
                if e.contains(y) {
                    let k = choose|k: int| 0 <= k < e.len() && e[k] == y;
                    if k < d.len() {
                        assert(d[k] == y);
                    }
                }
                if d.contains(y) {
                    let k = choose|k: int| 0 <= k < d.len() && d[k] == y;
                    assert(e[k] == y);
                }
                if y == x {
                    assert(e[e.len() - 1] == y);
                }
            }
            lemma_push_increasing(d, x);
        }
    }
}

/// Texts in strictly increasing order.
pub open spec fn increasing(d: Seq<Seq<char>>) -> bool {
    forall|i: int, j: int| 0 <= i < j < d.len() ==> text_le(d[i], d[j]) && d[i] != d[j]
}

proof fn lemma_push_increasing(d: Seq<Seq<char>>, x: Seq<char>)
    requires
        increasing(d),
        d.len() > 0 ==> text_le(d.last(), x) && d.last() != x,
    ensures
        increasing(d.push(x)),
{
    let e = d.push(x);
    assert forall|i: int, j: int| 0 <= i < j < e.len() implies text_le(e[i], e[j]) && e[i] != e[j] by {
        assert(e[i] == d[i]);
        if j == d.len() {
            assert(e[j] == x);
            if i < d.len() - 1 {
                let l = d.len() - 1;
                assert(text_le(d[i], d[l]) && d[i] != d[l]);
                lemma_le_trans(d[i], d[l], x);
                if d[i] == x {
                    lemma_le_antisym(d[l], x);
                }
            }
        } else {
            assert(e[j] == d[j]);
        }
    }
}

/// The completion offers each branch once, in the order of `String`, and
/// offers exactly the branches that the listing names.
pub proof fn law_each_branch_once(text: Seq<char>)
    ensures
        increasing(branch_candidates(text)),
        forall|x: Seq<char>|
            branch_candidates(text).contains(x) <==> branch_names(lines(text)).contains(x),
{
    let names = branch_names(lines(text));
    lemma_text_order_total();
    names.lemma_sort_by_ensures(text_order());
    lemma_dedup_props(sorted_texts(names));
    assert forall|x: Seq<char>| sorted_texts(names).contains(x) <==> names.contains(x) by {
        to_multiset_contains(names, x);
        to_multiset_contains(sorted_texts(names), x);
    }
}

} // verus!
