//! The global configuration: the shared paths of each repository, keyed by
//! the remote URL in a normal form.

use vstd::prelude::*;
use crate::manifest::{link_insert, links_contain, links_insert};
use crate::order::{lemma_le_total, lemma_le_trans, text_le, text_le_exec};
use crate::path::{join, path_join};
use crate::repo::opt_view;
use crate::text::{string_views, 
    chars_of, concat, ends_with, is_white, lemma_split_once_at, is_ascii_digit, is_ascii_digit_char, split_once, split_once_vec,
    starts_with, string_of, strip_prefix_vec, trim_end_char, trim_end_char_vec, trim_end_seq,
    trim_end_seq_vec, trim_start_char, trim_start_char_vec, trim_white, trim_white_vec,
};

verus! {

/// The list of shared paths for one repository.
///
/// The format is a table of named lists. A later version can add a
/// `copy = [...]` mode and keep each file that is already present.
/// Version 1 makes links only.
#[derive(Debug)]
pub struct RepoConfig {
    pub link: Vec<String>,
}

impl Default for RepoConfig {
    fn default() -> (c: Self)
        ensures
            c.link@.len() == 0,
    {
        RepoConfig { link: Vec::new() }
    }
}

impl RepoConfig {
    pub fn contains(&self, entry: &str) -> (b: bool)
        ensures
            b == string_views(self.link@).contains(entry@),
    {
        links_contain(&self.link, entry)
    }

    pub fn insert(&mut self, entry: &str)
        ensures
            string_views(final(self).link@) == link_insert(string_views(old(self).link@), entry@),
    {
        links_insert(&mut self.link, entry);
    }
}

/// The global configuration file.
///
/// One file holds the paths for each repository. The remote URL is the key,
/// so the same file is correct on each machine. The entries stand in the
/// order of their keys, each key once, as in a `BTreeMap`.
#[derive(Debug)]
pub struct Config {
    pub repos: Vec<(String, RepoConfig)>,
}

/// The file of the configuration: `$XDG_CONFIG_HOME/wt/config.toml` when
/// that variable is set and not empty, else `$HOME/.config/wt/config.toml`,
/// and none when `HOME` is not set either.
pub open spec fn config_path_spec(xdg: Option<Seq<char>>, home: Option<Seq<char>>) -> Option<
    Seq<char>,
> {
    match xdg {
        Some(x) if x.len() > 0 => Some(path_join(path_join(x, "wt"@), "config.toml"@)),
        _ => match home {
            Some(h) => Some(
                path_join(path_join(path_join(h, ".config"@), "wt"@), "config.toml"@),
            ),
            None => None,
        },
    }
}

impl Config {
    /// Where the configuration file is, from the values of the variables
    /// `XDG_CONFIG_HOME` and `HOME`; `None` when neither gives a place.
    pub fn path(xdg: Option<String>, home: Option<String>) -> (r: Option<String>)
        ensures
            opt_view(r) == config_path_spec(opt_view(xdg), opt_view(home)),
    {
        let base = match xdg {
            Some(x) if chars_of(x.as_str()).len() > 0 => x,
            _ => match home {
                Some(h) => join(h.as_str(), ".config"),
                None => {
                    return None;
                },
            },
        };
        let dir = join(base.as_str(), "wt");
        Some(join(dir.as_str(), "config.toml"))
    }
}

/// The keys of the entries.
pub open spec fn config_keys(repos: Seq<(String, RepoConfig)>) -> Seq<Seq<char>> {
    repos.map_values(|e: (String, RepoConfig)| e.0@)
}

/// The index of the first entry with the key.
pub open spec fn key_index(repos: Seq<(String, RepoConfig)>, key: Seq<char>) -> Option<int>
    decreases repos.len(),
{
    if repos.len() == 0 {
        None
    } else if repos[0].0@ == key {
        Some(0)
    } else {
        match key_index(repos.drop_first(), key) {
            Some(i) => Some(i + 1),
            None => None,
        }
    }
}

proof fn lemma_key_index_at(repos: Seq<(String, RepoConfig)>, key: Seq<char>, i: int)
    requires
        0 <= i <= repos.len(),
        forall|j: int| 0 <= j < i ==> (#[trigger] repos[j]).0@ != key,
        i < repos.len() ==> repos[i].0@ == key,
    ensures
        i < repos.len() ==> key_index(repos, key) == Some(i),
        i == repos.len() ==> key_index(repos, key) is None,
    decreases repos.len(),
{
    if repos.len() > 0 && repos[0].0@ != key {
        assert forall|j: int| 0 <= j < i - 1 implies (#[trigger] repos.drop_first()[j]).0@ != key by {
            assert(repos.drop_first()[j] == repos[j + 1]);
        }
        lemma_key_index_at(repos.drop_first(), key, i - 1);
    }
}

proof fn lemma_key_index_none(repos: Seq<(String, RepoConfig)>, key: Seq<char>)
    requires
        key_index(repos, key) is None,
    ensures
        forall|j: int| 0 <= j < repos.len() ==> (#[trigger] repos[j]).0@ != key,
    decreases repos.len(),
{
    if repos.len() > 0 {
        lemma_key_index_none(repos.drop_first(), key);
        assert forall|j: int| 0 <= j < repos.len() implies (#[trigger] repos[j]).0@ != key by {
            if j > 0 {
                assert(repos[j] == repos.drop_first()[j - 1]);
            }
        }
    }
}

/// Where an absent key goes: before the first key that it does not follow.
pub open spec fn insertion_point(repos: Seq<(String, RepoConfig)>, key: Seq<char>) -> int
    decreases repos.len(),
{
    if repos.len() == 0 {
        0
    } else if text_le(key, repos[0].0@) {
        0
    } else {
        insertion_point(repos.drop_first(), key) + 1
    }
}

proof fn lemma_insertion_point_at(repos: Seq<(String, RepoConfig)>, key: Seq<char>, i: int)
    requires
        0 <= i <= repos.len(),
        forall|j: int| 0 <= j < i ==> !text_le(key, (#[trigger] repos[j]).0@),
        i < repos.len() ==> text_le(key, repos[i].0@),
    ensures
        insertion_point(repos, key) == i,
    decreases repos.len(),
{
    if repos.len() > 0 && !text_le(key, repos[0].0@) {
        assert forall|j: int| 0 <= j < i - 1 implies !text_le(key, (#[trigger] repos.drop_first()[j]).0@) by {
            assert(repos.drop_first()[j] == repos[j + 1]);
        }
        lemma_insertion_point_at(repos.drop_first(), key, i - 1);
    }
}

/// The keys stand in strictly increasing order.
pub open spec fn keys_increase(repos: Seq<(String, RepoConfig)>) -> bool {
    forall|i: int, j: int|
        0 <= i < j < repos.len() ==> text_le((#[trigger] repos[i]).0@, (#[trigger] repos[j]).0@)
            && repos[i].0@ != repos[j].0@
}

proof fn lemma_insert_pair(
    repos: Seq<(String, RepoConfig)>,
    pos: int,
    e: (String, RepoConfig),
    i: int,
    j: int,
)
    requires
        0 <= pos <= repos.len(),
        forall|k: int| 0 <= k < pos ==> !text_le(e.0@, (#[trigger] repos[k]).0@),
        pos < repos.len() ==> text_le(e.0@, repos[pos].0@),
        forall|k: int| 0 <= k < repos.len() ==> (#[trigger] repos[k]).0@ != e.0@,
        keys_increase(repos),
        0 <= i < j < repos.len() + 1,
    ensures
        text_le(repos.insert(pos, e)[i].0@, repos.insert(pos, e)[j].0@),
        repos.insert(pos, e)[i].0@ != repos.insert(pos, e)[j].0@,
{
    let n = repos.insert(pos, e);
    repos.insert_ensures(pos, e);
    if j < pos {
        assert(n[i] == repos[i] && n[j] == repos[j]);
    } else if j == pos {
        assert(n[i] == repos[i]);
        assert(n[j] == e);
        lemma_le_total(repos[i].0@, e.0@);
    } else if i == pos {
        assert(n[i] == e);
        assert(n[j] == repos[j - 1]);
        if j - 1 > pos {
            assert(text_le(repos[pos].0@, repos[j - 1].0@));
            lemma_le_trans(e.0@, repos[pos].0@, repos[j - 1].0@);
        }
    } else if i < pos {
        assert(n[i] == repos[i] && n[j] == repos[j - 1]);
    } else {
        assert(n[i] == repos[i - 1] && n[j] == repos[j - 1]);
    }
}

/// An entry put where its key belongs keeps the keys in strictly
/// increasing order.
proof fn lemma_insert_keeps_order(repos: Seq<(String, RepoConfig)>, pos: int, e: (String, RepoConfig))
    requires
        0 <= pos <= repos.len(),
        forall|j: int| 0 <= j < pos ==> !text_le(e.0@, (#[trigger] repos[j]).0@),
        pos < repos.len() ==> text_le(e.0@, repos[pos].0@),
        forall|j: int| 0 <= j < repos.len() ==> (#[trigger] repos[j]).0@ != e.0@,
        keys_increase(repos),
    ensures
        keys_increase(repos.insert(pos, e)),
{
    let n = repos.insert(pos, e);
    assert forall|i: int, j: int| 0 <= i < j < n.len() implies text_le(
        (#[trigger] n[i]).0@,
        (#[trigger] n[j]).0@,
    ) && n[i].0@ != n[j].0@ by {
        lemma_insert_pair(repos, pos, e, i, j);
    }
}

impl Default for Config {
    fn default() -> (c: Self)
        ensures
            c.repos@.len() == 0,
    {
        Config { repos: Vec::new() }
    }
}

impl Config {
    /// The keys stand in strictly increasing order.
    pub open spec fn wf(&self) -> bool {
        keys_increase(self.repos@)
    }

    fn find(&self, key: &String) -> (r: Option<usize>)
        ensures
            match r {
                Some(i) => i < self.repos@.len() && key_index(self.repos@, key@) == Some(i as int),
                None => key_index(self.repos@, key@) is None,
            },
    {
        let mut i: usize = 0;
        while i < self.repos.len()
            invariant
                i <= self.repos@.len(),
                forall|j: int| 0 <= j < i ==> (#[trigger] self.repos@[j]).0@ != key@,
            decreases self.repos.len() - i,
        {
            if self.repos[i].0 == *key {
                proof {
                    lemma_key_index_at(self.repos@, key@, i as int);
                }
                return Some(i);
            }
            i += 1;
        }
        proof {
            lemma_key_index_at(self.repos@, key@, i as int);
        }
        None
    }

    /// The entry of the repository with this key.
    pub fn repo(&self, key: &str) -> (r: Option<&RepoConfig>)
        ensures
            match key_index(self.repos@, key@) {
                Some(i) => r == Some(&self.repos@[i].1),
                None => r is None,
            },
    {
        let k = String::from_str(key);
        match self.find(&k) {
            Some(i) => Some(&self.repos[i].1),
            None => None,
        }
    }

    /// The entry of the repository with this key. An absent entry is made
    /// empty, at the place of its key in the order.
    pub fn repo_mut(&mut self, key: &str) -> (r: &mut RepoConfig)
        ensures
            match key_index(old(self).repos@, key@) {
                Some(i) => {
                    &&& *r == old(self).repos@[i].1
                    &&& final(self).repos@ == old(self).repos@.update(
                        i,
                        (old(self).repos@[i].0, *final(r)),
                    )
                },
                None => {
                    let pos = insertion_point(old(self).repos@, key@);
                    &&& r.link@.len() == 0
                    &&& final(self).repos@[pos].0@ == key@
                    &&& final(self).repos@[pos].1 == *final(r)
                    &&& final(self).repos@ == old(self).repos@.insert(pos, final(self).repos@[pos])
                },
            },
            old(self).wf() ==> final(self).wf(),
    {
        let k = String::from_str(key);
        match self.find(&k) {
            Some(i) => {
                let ghost before = self.repos@;
                proof {
                    assert forall|x: RepoConfig| keys_increase(before) implies keys_increase(
                        #[trigger] before.update(i as int, (before[i as int].0, x)),
                    ) by {
                        let u = before.update(i as int, (before[i as int].0, x));
                        assert forall|a: int, b: int| 0 <= a < b < u.len() implies text_le(
                            (#[trigger] u[a]).0@,
                            (#[trigger] u[b]).0@,
                        ) && u[a].0@ != u[b].0@ by {
                            assert(u[a].0 == before[a].0 && u[b].0 == before[b].0);
                        }
                    }
                }
                &mut self.repos[i].1
            },
            None => {
                let mut pos: usize = 0;
                while pos < self.repos.len() && !text_le_exec(&k, &self.repos[pos].0)
                    invariant
                        pos <= self.repos@.len(),
                        k@ == key@,
                        forall|j: int| 0 <= j < pos ==> !text_le(key@, (#[trigger] self.repos@[j]).0@),
                    decreases self.repos.len() - pos,
                {
                    pos += 1;
                }
                let ghost before = self.repos@;
                proof {
                    lemma_insertion_point_at(before, key@, pos as int);
                }
                self.repos.insert(pos, (k, RepoConfig::default()));
                let ghost mid = self.repos@;
                proof {
                    assert forall|x: RepoConfig| #[trigger] mid.update(pos as int, (mid[pos as int].0, x))
                        =~= before.insert(pos as int, (mid[pos as int].0, x)) by {}
                }
                proof {
                    lemma_key_index_none(before, key@);
                    assert(self.repos@ == before.insert(pos as int, self.repos@[pos as int]));
                    if keys_increase(before) {
                        lemma_insert_keeps_order(before, pos as int, self.repos@[pos as int]);
                    }
                }
                &mut self.repos[pos].1
            },
        }
    }
}

pub open spec fn ssh_scheme() -> Seq<char> {
    seq!['s', 's', 'h', ':', '/', '/']
}

pub open spec fn https_scheme() -> Seq<char> {
    seq!['h', 't', 't', 'p', 's', ':', '/', '/']
}

pub open spec fn http_scheme() -> Seq<char> {
    seq!['h', 't', 't', 'p', ':', '/', '/']
}

pub open spec fn git_scheme() -> Seq<char> {
    seq!['g', 'i', 't', ':', '/', '/']
}

pub open spec fn dot_git() -> Seq<char> {
    seq!['.', 'g', 'i', 't']
}

/// The URL without the first of the schemes `ssh://`, `https://`,
/// `http://`, `git://` that it starts with.
pub open spec fn strip_scheme(s: Seq<char>) -> Seq<char> {
    if starts_with(s, ssh_scheme()) {
        s.skip(6)
    } else if starts_with(s, https_scheme()) {
        s.skip(8)
    } else if starts_with(s, http_scheme()) {
        s.skip(7)
    } else if starts_with(s, git_scheme()) {
        s.skip(6)
    } else {
        s
    }
}

/// The text after the first `@`, or all of it when it has none.
pub open spec fn drop_user(s: Seq<char>) -> Seq<char> {
    match split_once(s, '@') {
        Some((_, rest)) => rest,
        None => s,
    }
}

/// The SCP form `host:path` becomes `host/path`. A colon that a digit
/// follows is a port, and it stays.
pub open spec fn scp_to_path(s: Seq<char>) -> Seq<char> {
    match split_once(s, ':') {
        Some((host, path)) => if path.len() > 0 && is_ascii_digit(path[0]) {
            s
        } else {
            host + seq!['/'] + trim_start_char(path, '/')
        },
        None => s,
    }
}

/// The key of a remote URL.
pub open spec fn url_key(url: Seq<char>) -> Seq<char> {
    let s = trim_end_char(trim_white(url), '/');
    let s = scp_to_path(drop_user(strip_scheme(s)));
    trim_end_char(trim_end_seq(s, dot_git()), '/')
}

fn strip_scheme_vec(s: Vec<char>) -> (r: Vec<char>)
    ensures
        r@ == strip_scheme(s@),
{
    let ssh = vec!['s', 's', 'h', ':', '/', '/'];
    let https = vec!['h', 't', 't', 'p', 's', ':', '/', '/'];
    let http = vec!['h', 't', 't', 'p', ':', '/', '/'];
    let git = vec!['g', 'i', 't', ':', '/', '/'];
    assert(ssh@ =~= ssh_scheme());
    assert(https@ =~= https_scheme());
    assert(http@ =~= http_scheme());
    assert(git@ =~= git_scheme());
    if let Some(rest) = strip_prefix_vec(&s, ssh.as_slice()) {
        return rest;
    }
    if let Some(rest) = strip_prefix_vec(&s, https.as_slice()) {
        return rest;
    }
    if let Some(rest) = strip_prefix_vec(&s, http.as_slice()) {
        return rest;
    }
    if let Some(rest) = strip_prefix_vec(&s, git.as_slice()) {
        return rest;
    }
    s
}

/// Make a key from a remote URL.
///
/// The key must be the same for each form of the URL, because one machine can
/// use SSH and another machine can use HTTPS.
///
///   git@github.com:owner/repo.git      -> github.com/owner/repo
///   https://github.com/owner/repo.git  -> github.com/owner/repo
///   ssh://git@github.com/owner/repo    -> github.com/owner/repo
pub fn key_from_url(url: &str) -> (key: String)
    ensures
        key@ == url_key(url@),
{
    let v = chars_of(url);
    let v = trim_white_vec(&v);
    let v = trim_end_char_vec(&v, '/');
    let s = strip_scheme_vec(v);
    let ghost s_view = s@;
    let out = match split_once_vec(&s, '@') {
        Some((_, rest)) => rest,
        None => s,
    };
    assert(out@ == drop_user(s_view));
    let ghost out_view = out@;
    let out = match split_once_vec(&out, ':') {
        Some((host, path)) => {
            if path.len() > 0 && is_ascii_digit_char(path[0]) {
                out
            } else {
                let slash = vec!['/'];
                let joined = concat(&host, &slash);
                let tail = trim_start_char_vec(&path, '/');
                concat(&joined, &tail)
            }
        },
        None => out,
    };
    assert(out@ == scp_to_path(out_view));
    let git = vec!['.', 'g', 'i', 't'];
    assert(git@ =~= dot_git());
    let out = trim_end_seq_vec(&out, git.as_slice());
    let out = trim_end_char_vec(&out, '/');
    string_of(&out)
}

// ---------------------------------------------------------------- laws

/// A user or a host: nonempty, and free of `@`, `:`, `/` and white space.
pub open spec fn plain_part(s: Seq<char>) -> bool {
    &&& s.len() > 0
    &&& forall|i: int|
        0 <= i < s.len() ==> s[i] != '@' && s[i] != ':' && s[i] != '/' && !is_white(#[trigger] s[i])
}

/// The path of a repository on its host, such as `owner/repo`: nonempty,
/// free of `@`, `:` and white space, with no `/` at either end, no `.git`
/// at the end, and no digit first (which the SCP form reads as a port).
pub open spec fn repo_path(p: Seq<char>) -> bool {
    &&& p.len() > 0
    &&& forall|i: int| 0 <= i < p.len() ==> p[i] != '@' && p[i] != ':' && !is_white(#[trigger] p[i])
    &&& p[0] != '/'
    &&& !is_ascii_digit(p[0])
    &&& p.last() != '/'
    &&& !ends_with(p, dot_git())
}

/// What may follow the path: nothing, `/`, `.git` or `.git/`.
pub open spec fn url_suffix(x: Seq<char>) -> bool {
    x == Seq::<char>::empty() || x == seq!['/'] || x == dot_git() || x == dot_git().push('/')
}

/// One of the schemes that a key drops.
pub open spec fn url_scheme(x: Seq<char>) -> bool {
    x == ssh_scheme() || x == https_scheme() || x == http_scheme() || x == git_scheme()
}

/// The key of a repository: its host, a slash, its path.
pub open spec fn repo_key(host: Seq<char>, path: Seq<char>) -> Seq<char> {
    host + seq!['/'] + path
}

proof fn lemma_trim_white_noop(s: Seq<char>)
    requires
        s.len() > 0,
        !is_white(s[0]),
        !is_white(s.last()),
    ensures
        trim_white(s) == s,
{
}

/// The suffix loses its trailing slash, and nothing before it is touched.
proof fn lemma_trim_slash(x: Seq<char>, suffix: Seq<char>)
    requires
        x.len() > 0,
        x.last() != '/',
        url_suffix(suffix),
    ensures
        trim_end_char(x + suffix, '/') == x + trim_end_char(suffix, '/'),
        trim_end_char(suffix, '/') == Seq::<char>::empty() || trim_end_char(suffix, '/') == dot_git(),
{
    let t = x + suffix;
    assert(trim_end_char(x, '/') == x);
    if suffix == Seq::<char>::empty() {
        assert(t =~= x);
        assert(trim_end_char(suffix, '/') == suffix);
        assert(x + suffix =~= x);
    } else if suffix == seq!['/'] {
        assert(t.drop_last() =~= x);
        assert(t.last() == '/');
        assert(trim_end_char(t, '/') == trim_end_char(x, '/'));
        assert(suffix.drop_last() =~= Seq::<char>::empty());
        assert(trim_end_char(suffix.drop_last(), '/') == suffix.drop_last());
        assert(trim_end_char(suffix, '/') == Seq::<char>::empty());
        assert(x + Seq::<char>::empty() =~= x);
    } else if suffix == dot_git() {
        assert(t.last() == 't');
        assert(trim_end_char(t, '/') == t);
        assert(trim_end_char(suffix, '/') == suffix);
    } else {
        assert(t.last() == '/');
        assert(t.drop_last() =~= x + dot_git());
        assert((x + dot_git()).last() == 't');
        assert(trim_end_char(x + dot_git(), '/') == x + dot_git());
        assert(t.len() > 0);
        assert(trim_end_char(t, '/') == trim_end_char(t.drop_last(), '/'));
        assert(trim_end_char(t, '/') == x + dot_git());
        assert(suffix.last() == '/');
        assert(suffix.drop_last() =~= dot_git());
        assert(trim_end_char(dot_git(), '/') == dot_git());
        assert(trim_end_char(suffix, '/') == dot_git());
    }
}

/// A text in which no `:` is followed by `/` starts with no scheme.
proof fn lemma_no_scheme(s: Seq<char>)
    requires
        forall|k: int| 0 <= k < s.len() - 1 && #[trigger] s[k] == ':' ==> s[k + 1] != '/',
    ensures
        strip_scheme(s) == s,
{
    if starts_with(s, ssh_scheme()) {
        assert(s.take(6)[3] == ':' && s.take(6)[4] == '/');
        assert(s[3] == ':' && s[4] == '/');
    }
    if starts_with(s, https_scheme()) {
        assert(s.take(8)[5] == ':' && s.take(8)[6] == '/');
        assert(s[5] == ':' && s[6] == '/');
    }
    if starts_with(s, http_scheme()) {
        assert(s.take(7)[4] == ':' && s.take(7)[5] == '/');
        assert(s[4] == ':' && s[5] == '/');
    }
    if starts_with(s, git_scheme()) {
        assert(s.take(6)[3] == ':' && s.take(6)[4] == '/');
        assert(s[3] == ':' && s[4] == '/');
    }
}

/// A text that starts with a scheme loses exactly that scheme.
proof fn lemma_strip_scheme(scheme: Seq<char>, rest: Seq<char>)
    requires
        url_scheme(scheme),
    ensures
        strip_scheme(scheme + rest) == rest,
{
    let s = scheme + rest;
    assert(s.take(scheme.len() as int) =~= scheme);
    assert(s.skip(scheme.len() as int) =~= rest);
    if scheme == https_scheme() {
        assert(s[0] == 'h');
    } else if scheme == http_scheme() {
        assert(s[0] == 'h');
        assert(s[4] == ':');
        assert(!starts_with(s, https_scheme())) by {
            if starts_with(s, https_scheme()) {
                assert(s.take(8)[4] == 's');
            }
        }
    } else if scheme == git_scheme() {
        assert(s[0] == 'g');
        assert(!starts_with(s, ssh_scheme())) by {
            if starts_with(s, ssh_scheme()) {
                assert(s.take(6)[0] == 's');
            }
        }
        assert(!starts_with(s, https_scheme())) by {
            if starts_with(s, https_scheme()) {
                assert(s.take(8)[0] == 'h');
            }
        }
        assert(!starts_with(s, http_scheme())) by {
            if starts_with(s, http_scheme()) {
                assert(s.take(7)[0] == 'h');
            }
        }
    }
    if scheme == https_scheme() || scheme == http_scheme() {
        assert(!starts_with(s, ssh_scheme())) by {
            if starts_with(s, ssh_scheme()) {
                assert(s.take(6)[0] == 's');
            }
        }
    }
}

/// `host/path` does not end with `.git`.
proof fn lemma_key_not_dot_git(h: Seq<char>, p: Seq<char>)
    requires
        plain_part(h),
        repo_path(p),
    ensures
        !ends_with(repo_key(h, p), dot_git()),
{
    let k = repo_key(h, p);
    if ends_with(k, dot_git()) {
        if p.len() >= 4 {
            assert(p.skip(p.len() - 4) =~= k.skip(k.len() - 4));
        } else {
            // The slash stands among the last four characters.
            let j = 4 - p.len() - 1;
            assert(k.skip(k.len() - 4)[j] == '/');
        }
    }
}

/// The last stage of a key: `host/path` and then nothing or `.git`.
proof fn lemma_key_finish(h: Seq<char>, p: Seq<char>, g: Seq<char>)
    requires
        plain_part(h),
        repo_path(p),
        g == Seq::<char>::empty() || g == dot_git(),
    ensures
        trim_end_char(trim_end_seq(repo_key(h, p) + g, dot_git()), '/') == repo_key(h, p),
{
    let k = repo_key(h, p);
    lemma_key_not_dot_git(h, p);
    if g == dot_git() {
        let t = k + g;
        assert(t.skip(t.len() - 4) =~= dot_git());
        assert(t.take(t.len() - 4) =~= k);
    } else {
        assert(k + g =~= k);
    }
    assert(trim_end_seq(k, dot_git()) == k);
    assert(k.last() == p.last());
}

/// `host:path` becomes `host/path`.
proof fn lemma_scp_rest(h: Seq<char>, p: Seq<char>, g: Seq<char>)
    requires
        plain_part(h),
        repo_path(p),
        g == Seq::<char>::empty() || g == dot_git(),
    ensures
        scp_to_path(h + seq![':'] + p + g) == repo_key(h, p) + g,
{
    let s = h + seq![':'] + p + g;
    assert forall|j: int| 0 <= j < h.len() implies s[j] != ':' by {
        assert(s[j] == h[j]);
    }
    lemma_split_once_at(s, ':', h.len() as int);
    assert(s.take(h.len() as int) =~= h);
    assert(s.skip(h.len() as int + 1) =~= p + g);
    let path = p + g;
    assert(path[0] == p[0]);
    assert(trim_start_char(path, '/') == path);
    assert(h + seq!['/'] + path =~= repo_key(h, p) + g);
}

/// `host/path` has no colon, so it stays.
proof fn lemma_url_rest(h: Seq<char>, p: Seq<char>, g: Seq<char>)
    requires
        plain_part(h),
        repo_path(p),
        g == Seq::<char>::empty() || g == dot_git(),
    ensures
        scp_to_path(repo_key(h, p) + g) == repo_key(h, p) + g,
{
    let s = repo_key(h, p) + g;
    assert forall|j: int| 0 <= j < s.len() implies s[j] != ':' by {
        if j < h.len() {
            assert(s[j] == h[j]);
        } else if j == h.len() {
        } else if j < h.len() + 1 + p.len() {
            assert(s[j] == p[j - h.len() - 1]);
        } else {
            assert(s[j] == g[j - h.len() - 1 - p.len()]);
        }
    }
    lemma_split_once_at(s, ':', s.len() as int);
}

/// The SCP form `user@host:path`, with or without `.git` or a trailing
/// slash, gives the key `host/path`.
pub proof fn law_scp_form_key(u: Seq<char>, h: Seq<char>, p: Seq<char>, suffix: Seq<char>)
    requires
        plain_part(u),
        plain_part(h),
        repo_path(p),
        url_suffix(suffix),
    ensures
        url_key(u + seq!['@'] + h + seq![':'] + p + suffix) == repo_key(h, p),
{
    let body = u + seq!['@'] + h + seq![':'] + p;
    let url = body + suffix;
    assert(url =~= u + seq!['@'] + h + seq![':'] + p + suffix);
    assert(url[0] == u[0]);
    assert(body.last() == p.last());
    if suffix.len() > 0 {
        assert(url.last() == suffix.last());
    } else {
        assert(url.last() == p.last());
    }
    lemma_trim_white_noop(url);
    lemma_trim_slash(body, suffix);
    let g = trim_end_char(suffix, '/');
    let t = body + g;
    // No `:` in the text is followed by `/`.
    let at = u.len() as int;
    let colon = u.len() as int + 1 + h.len();
    assert forall|k: int| 0 <= k < t.len() - 1 && #[trigger] t[k] == ':' implies t[k + 1] != '/' by {
        if k < at {
            assert(t[k] == u[k]);
        } else if k == at {
        } else if k < colon {
            assert(t[k] == h[k - at - 1]);
        } else if k == colon {
            assert(t[k + 1] == p[0]);
        } else if k < colon + 1 + p.len() {
            assert(t[k] == p[k - colon - 1]);
        } else {
            assert(t[k] == g[k - colon - 1 - p.len()]);
        }
    }
    lemma_no_scheme(t);
    // The first `@` ends the user.
    assert forall|j: int| 0 <= j < at implies t[j] != '@' by {
        assert(t[j] == u[j]);
    }
    lemma_split_once_at(t, '@', at);
    assert(t.skip(at + 1) =~= h + seq![':'] + p + g);
    lemma_scp_rest(h, p, g);
    lemma_key_finish(h, p, g);
}

/// The URL form `scheme://host/path` gives the key `host/path`.
pub proof fn law_url_form_key(scheme: Seq<char>, h: Seq<char>, p: Seq<char>, suffix: Seq<char>)
    requires
        url_scheme(scheme),
        plain_part(h),
        repo_path(p),
        url_suffix(suffix),
    ensures
        url_key(scheme + h + seq!['/'] + p + suffix) == repo_key(h, p),
{
    let body = scheme + h + seq!['/'] + p;
    let url = body + suffix;
    assert(url =~= scheme + h + seq!['/'] + p + suffix);
    assert(url[0] == scheme[0]);
    assert(body.last() == p.last());
    if suffix.len() > 0 {
        assert(url.last() == suffix.last());
    } else {
        assert(url.last() == p.last());
    }
    lemma_trim_white_noop(url);
    lemma_trim_slash(body, suffix);
    let g = trim_end_char(suffix, '/');
    let rest = repo_key(h, p) + g;
    assert(body + g =~= scheme + rest);
    lemma_strip_scheme(scheme, rest);
    assert forall|j: int| 0 <= j < rest.len() implies rest[j] != '@' by {
        if j < h.len() {
            assert(rest[j] == h[j]);
        } else if j == h.len() {
        } else if j < h.len() + 1 + p.len() {
            assert(rest[j] == p[j - h.len() - 1]);
        } else {
            assert(rest[j] == g[j - h.len() - 1 - p.len()]);
        }
    }
    lemma_split_once_at(rest, '@', rest.len() as int);
    lemma_url_rest(h, p, g);
    lemma_key_finish(h, p, g);
}

/// The URL form with a user, `scheme://user@host/path`, gives the key
/// `host/path`.
pub proof fn law_url_form_with_user_key(
    scheme: Seq<char>,
    u: Seq<char>,
    h: Seq<char>,
    p: Seq<char>,
    suffix: Seq<char>,
)
    requires
        url_scheme(scheme),
        plain_part(u),
        plain_part(h),
        repo_path(p),
        url_suffix(suffix),
    ensures
        url_key(scheme + u + seq!['@'] + h + seq!['/'] + p + suffix) == repo_key(h, p),
{
    let body = scheme + u + seq!['@'] + h + seq!['/'] + p;
    let url = body + suffix;
    assert(url =~= scheme + u + seq!['@'] + h + seq!['/'] + p + suffix);
    assert(url[0] == scheme[0]);
    assert(body.last() == p.last());
    if suffix.len() > 0 {
        assert(url.last() == suffix.last());
    } else {
        assert(url.last() == p.last());
    }
    lemma_trim_white_noop(url);
    lemma_trim_slash(body, suffix);
    let g = trim_end_char(suffix, '/');
    let key = repo_key(h, p) + g;
    let rest = u + seq!['@'] + key;
    assert(body + g =~= scheme + rest);
    lemma_strip_scheme(scheme, rest);
    let at = u.len() as int;
    assert forall|j: int| 0 <= j < at implies rest[j] != '@' by {
        assert(rest[j] == u[j]);
    }
    lemma_split_once_at(rest, '@', at);
    assert(rest.skip(at + 1) =~= key);
    lemma_url_rest(h, p, g);
    lemma_key_finish(h, p, g);
}

/// Two repositories do not share a key: the key gives back its host and its
/// path.
pub proof fn law_key_determines_repository(h1: Seq<char>, p1: Seq<char>, h2: Seq<char>, p2: Seq<char>)
    requires
        plain_part(h1),
        plain_part(h2),
        repo_path(p1),
        repo_path(p2),
        repo_key(h1, p1) == repo_key(h2, p2),
    ensures
        h1 == h2,
        p1 == p2,
{
    let k1 = repo_key(h1, p1);
    let k2 = repo_key(h2, p2);
    assert forall|j: int| 0 <= j < h1.len() implies k1[j] != '/' by {
        assert(k1[j] == h1[j]);
    }
    assert forall|j: int| 0 <= j < h2.len() implies k2[j] != '/' by {
        assert(k2[j] == h2[j]);
    }
    lemma_split_once_at(k1, '/', h1.len() as int);
    lemma_split_once_at(k2, '/', h2.len() as int);
    assert(k1.take(h1.len() as int) =~= h1);
    assert(k2.take(h2.len() as int) =~= h2);
    assert(k1.skip(h1.len() as int + 1) =~= p1);
    assert(k2.skip(h2.len() as int + 1) =~= p2);
}

} // verus!
