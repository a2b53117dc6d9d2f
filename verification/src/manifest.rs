//! `worktree-shared.toml`, in the common directory of the repository: the
//! paths that each worktree links to the store.

use vstd::prelude::*;
use vstd::relations::sorted_by;
use crate::order::{lemma_text_order_total, sort_texts, sorted_texts, text_order};
use crate::text::string_views;
use vstd::seq_lib::{to_multiset_contains, to_multiset_remove};

verus! {

/// The list after `insert(entry)`: unchanged when it holds the entry, else
/// the list with the entry, sorted.
pub open spec fn link_insert(links: Seq<Seq<char>>, entry: Seq<char>) -> Seq<Seq<char>> {
    if links.contains(entry) {
        links
    } else {
        sorted_texts(links.push(entry))
    }
}

/// The index of `entry` in `links`, if it is there.
fn index_of(links: &Vec<String>, entry: &str) -> (r: Option<usize>)
    ensures
        match r {
            Some(i) => i < links.len() && string_views(links@)[i as int] == entry@,
            None => !string_views(links@).contains(entry@),
        },
{
    let ghost v = string_views(links@);
    let e = String::from_str(entry);
    let mut i: usize = 0;
    while i < links.len()
        invariant
            i <= links.len(),
            v == string_views(links@),
            e@ == entry@,
            forall|j: int| 0 <= j < i ==> #[trigger] v[j] != entry@,
        decreases links.len() - i,
    {
        assert(v[i as int] == links@[i as int]@);
        if links[i] == e {
            return Some(i);
        }
        i += 1;
    }
    None
}

pub fn links_contain(links: &Vec<String>, entry: &str) -> (b: bool)
    ensures
        b == string_views(links@).contains(entry@),
{
    match index_of(links, entry) {
        Some(i) => {
            assert(string_views(links@)[i as int] == entry@);
            true
        },
        None => false,
    }
}

pub fn links_insert(links: &mut Vec<String>, entry: &str)
    ensures
        string_views(final(links)@) == link_insert(string_views(old(links)@), entry@),
{
    if !links_contain(links, entry) {
        let ghost before = string_views(links@);
        links.push(String::from_str(entry));
        assert(string_views(links@) =~= before.push(entry@));
        let sorted = sort_texts(links);
        *links = sorted;
    }
}

/// `worktree-shared.toml`, living in the repo's common dir.
///
/// The format is a table of named lists so that a future `copy = [...]`
/// mode can be added without breaking existing manifests. v1 is link-only.
#[derive(Debug)]
pub struct Manifest {
    pub link: Vec<String>,
}

impl Default for Manifest {
    fn default() -> (m: Self)
        ensures
            m.link@.len() == 0,
    {
        Manifest { link: Vec::new() }
    }
}

impl Manifest {
    pub fn contains(&self, entry: &str) -> (b: bool)
        ensures
            b == string_views(self.link@).contains(entry@),
    {
        links_contain(&self.link, entry)
    }

    pub fn insert(&mut self, entry: &str)
        ensures
            string_views(final(self).link@) == link_insert(string_views(old(self).link@), entry@),
    {
        links_insert(&mut self.link, entry);
    }
}

/// No text stands twice in the list.
pub open spec fn distinct(links: Seq<Seq<char>>) -> bool {
    forall|i: int, j: int| 0 <= i < j < links.len() ==> links[i] != links[j]
}

/// After an insertion the list holds the entry, it still holds each entry
/// it held, and it holds nothing else.
pub proof fn law_insert_adds_exactly_the_entry(links: Seq<Seq<char>>, entry: Seq<char>)
    ensures
        link_insert(links, entry).contains(entry),
        forall|x: Seq<char>| links.contains(x) ==> link_insert(links, entry).contains(x),
        forall|x: Seq<char>|
            link_insert(links, entry).contains(x) ==> links.contains(x) || x == entry,
{
    if !links.contains(entry) {
        lemma_text_order_total();
        let p = links.push(entry);
        p.lemma_sort_by_ensures(text_order());
        assert forall|x: Seq<char>| p.contains(x) <==> sorted_texts(p).contains(x) by {
            to_multiset_contains(p, x);
            to_multiset_contains(sorted_texts(p), x);
        }
        assert(p[links.len() as int] == entry);
        assert(p.contains(entry));
        assert(sorted_texts(p).contains(entry));
        assert forall|x: Seq<char>| links.contains(x) implies p.contains(x) by {
            let i = choose|i: int| 0 <= i < links.len() && links[i] == x;
            assert(p[i] == x);
        }
        assert forall|x: Seq<char>| sorted_texts(p).contains(x) implies links.contains(x) || x == entry by {
            if !p.contains(x) {
            } else {
                let i = choose|i: int| 0 <= i < p.len() && p[i] == x;
                if i < links.len() {
                    assert(links[i] == x);
                }
            }
        }
    }
}

/// An insertion of an entry that is there already changes nothing, so a
/// second insertion of the same entry is no change.
pub proof fn law_insert_is_idempotent(links: Seq<Seq<char>>, entry: Seq<char>)
    ensures
        link_insert(link_insert(links, entry), entry) == link_insert(links, entry),
{
    law_insert_adds_exactly_the_entry(links, entry);
}

/// A sorted list without repeats stays sorted and without repeats.
pub proof fn law_insert_keeps_sorted_and_distinct(links: Seq<Seq<char>>, entry: Seq<char>)
    requires
        sorted_by(links, text_order()),
        distinct(links),
    ensures
        sorted_by(link_insert(links, entry), text_order()),
        distinct(link_insert(links, entry)),
{
    if !links.contains(entry) {
        lemma_text_order_total();
        let p = links.push(entry);
        p.lemma_sort_by_ensures(text_order());
        let s = sorted_texts(p);
        assert(distinct(p)) by {
            assert forall|i: int, j: int| 0 <= i < j < p.len() implies p[i] != p[j] by {
                if j == links.len() {
                    assert(links[i] == p[i]);
                }
            }
        }
        assert forall|i: int, j: int| 0 <= i < j < s.len() implies s[i] != s[j] by {
            if s[i] == s[j] {
                lemma_count_two(s, i, j);
                lemma_distinct_count(p, s[i]);
            }
        }
    }
}

proof fn lemma_count_two(s: Seq<Seq<char>>, i: int, j: int)
    requires
        0 <= i < j < s.len(),
        s[i] == s[j],
    ensures
        s.to_multiset().count(s[i]) >= 2,
{
    broadcast use vstd::multiset::group_multiset_axioms;
    let a = s.remove(j);
    assert(a[i] == s[i]);
    assert(a.contains(s[i]));
    to_multiset_contains(a, s[i]);
    to_multiset_remove(s, j);
    assert(s.remove(j).to_multiset() == s.to_multiset().remove(s[j]));
    assert(s.to_multiset().remove(s[j]).count(s[i]) > 0);
}

proof fn lemma_distinct_count(p: Seq<Seq<char>>, x: Seq<char>)
    requires
        distinct(p),
    ensures
        p.to_multiset().count(x) <= 1,
    decreases p.len(),
{
    broadcast use vstd::seq_lib::group_to_multiset_ensures;
    broadcast use vstd::multiset::group_multiset_axioms;
    if p.len() > 0 {
        let q = p.drop_last();
        assert(p =~= q.push(p.last()));
        assert(distinct(q)) by {
            assert forall|i: int, j: int| 0 <= i < j < q.len() implies q[i] != q[j] by {
                assert(q[i] == p[i] && q[j] == p[j]);
            }
        }
        lemma_distinct_count(q, x);
        if x == p.last() {
            assert(!q.contains(x)) by {
                if q.contains(x) {
                    let i = choose|i: int| 0 <= i < q.len() && q[i] == x;
                    assert(p[i] == p[p.len() - 1]);
                }
            }
        }
    }
}

} // verus!
