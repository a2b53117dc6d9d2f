//! Text as sequences of characters: the operations on `str` that the rest of
//! the library needs, each stated over `Seq<char>` and proved.

use vstd::prelude::*;

verus! {

// ---------------------------------------------------------------- specs

/// `s` with each trailing `c` removed.
pub open spec fn trim_end_char(s: Seq<char>, c: char) -> Seq<char>
    decreases s.len(),
{
    if s.len() > 0 && s.last() == c {
        trim_end_char(s.drop_last(), c)
    } else {
        s
    }
}

/// `s` with each leading `c` removed.
pub open spec fn trim_start_char(s: Seq<char>, c: char) -> Seq<char>
    decreases s.len(),
{
    if s.len() > 0 && s[0] == c {
        trim_start_char(s.drop_first(), c)
    } else {
        s
    }
}

pub open spec fn starts_with(s: Seq<char>, p: Seq<char>) -> bool {
    p.len() <= s.len() && s.take(p.len() as int) == p
}

pub open spec fn ends_with(s: Seq<char>, p: Seq<char>) -> bool {
    p.len() <= s.len() && s.skip(s.len() - p.len()) == p
}

/// `s` with each trailing copy of the nonempty pattern `p` removed.
pub open spec fn trim_end_seq(s: Seq<char>, p: Seq<char>) -> Seq<char>
    decreases s.len(),
{
    if p.len() > 0 && ends_with(s, p) {
        trim_end_seq(s.take(s.len() - p.len()), p)
    } else {
        s
    }
}

/// The parts of `s` before and after the first `c`, if `s` holds a `c`.
pub open spec fn split_once(s: Seq<char>, c: char) -> Option<(Seq<char>, Seq<char>)>
    decreases s.len(),
{
    if s.len() == 0 {
        None
    } else if s[0] == c {
        Some((Seq::empty(), s.drop_first()))
    } else {
        match split_once(s.drop_first(), c) {
            Some((a, b)) => Some((seq![s[0]] + a, b)),
            None => None,
        }
    }
}

/// `c` is Unicode white space, as `char::is_whitespace` reads it.
pub open spec fn is_white(c: char) -> bool {
    ||| '\u{9}' <= c <= '\u{d}'
    ||| c == ' '
    ||| c == '\u{85}'
    ||| c == '\u{a0}'
    ||| c == '\u{1680}'
    ||| '\u{2000}' <= c <= '\u{200a}'
    ||| c == '\u{2028}'
    ||| c == '\u{2029}'
    ||| c == '\u{202f}'
    ||| c == '\u{205f}'
    ||| c == '\u{3000}'
}

pub open spec fn trim_start_white(s: Seq<char>) -> Seq<char>
    decreases s.len(),
{
    if s.len() > 0 && is_white(s[0]) {
        trim_start_white(s.drop_first())
    } else {
        s
    }
}

pub open spec fn trim_end_white(s: Seq<char>) -> Seq<char>
    decreases s.len(),
{
    if s.len() > 0 && is_white(s.last()) {
        trim_end_white(s.drop_last())
    } else {
        s
    }
}

/// `str::trim`: white space removed at both ends.
pub open spec fn trim_white(s: Seq<char>) -> Seq<char> {
    trim_end_white(trim_start_white(s))
}

pub open spec fn is_ascii_digit(c: char) -> bool {
    '0' <= c <= '9'
}

/// `str::split(c)`: the pieces between the separators, empty ones too.
pub open spec fn split_all(s: Seq<char>, c: char) -> Seq<Seq<char>>
    decreases s.len(),
{
    match split_once(s, c) {
        Some((a, b)) => if b.len() < s.len() {
            seq![a] + split_all(b, c)
        } else {
            Seq::empty()
        },
        None => seq![s],
    }
}

/// A line that ended with a line feed loses one carriage return before it.
pub open spec fn strip_cr(s: Seq<char>) -> Seq<char> {
    if s.len() > 0 && s.last() == '\r' {
        s.drop_last()
    } else {
        s
    }
}

/// `str::lines`: the text cut at each line feed. A carriage return before a
/// line feed goes with it; a final line feed ends the last line and starts
/// no new one.
pub open spec fn lines(s: Seq<char>) -> Seq<Seq<char>>
    decreases s.len(),
{
    if s.len() == 0 {
        Seq::empty()
    } else {
        match split_once(s, '\n') {
            Some((line, rest)) => if rest.len() < s.len() {
                seq![strip_cr(line)] + lines(rest)
            } else {
                Seq::empty()
            },
            None => seq![s],
        }
    }
}

/// The character sequences that a list of vectors holds.
pub open spec fn views(v: Seq<Vec<char>>) -> Seq<Seq<char>> {
    v.map_values(|l: Vec<char>| l@)
}

/// The texts of a list of strings.
pub open spec fn string_views(v: Seq<String>) -> Seq<Seq<char>> {
    v.map_values(|s: String| s@)
}

/// `[T]::join`: the texts with `sep` between each two.
pub open spec fn join_with(list: Seq<Seq<char>>, sep: Seq<char>) -> Seq<char>
    decreases list.len(),
{
    if list.len() == 0 {
        Seq::empty()
    } else if list.len() == 1 {
        list[0]
    } else {
        join_with(list.drop_last(), sep) + sep + list.last()
    }
}

/// The decimal digit of `d`.
pub open spec fn digit_char(d: nat) -> char {
    if d == 0 { '0' } else if d == 1 { '1' } else if d == 2 { '2' } else if d == 3 { '3' }
    else if d == 4 { '4' } else if d == 5 { '5' } else if d == 6 { '6' } else if d == 7 { '7' }
    else if d == 8 { '8' } else { '9' }
}

/// The decimal numeral of `n`, as `Display` writes it.
pub open spec fn decimal(n: nat) -> Seq<char>
    decreases n,
{
    if n < 10 {
        seq![digit_char(n)]
    } else {
        decimal(n / 10).push(digit_char(n % 10))
    }
}

// ---------------------------------------------------------------- lemmas

/// The first `c` in `s` stands at `i` (or `s` has none, and `i` is its
/// length): then `split_once` cuts there.
pub proof fn lemma_split_once_at(s: Seq<char>, c: char, i: int)
    requires
        0 <= i <= s.len(),
        forall|j: int| 0 <= j < i ==> s[j] != c,
        i < s.len() ==> s[i] == c,
    ensures
        i < s.len() ==> split_once(s, c) == Some((s.take(i), s.skip(i + 1))),
        i == s.len() ==> split_once(s, c) is None,
    decreases s.len(),
{
    if s.len() == 0 {
    } else if s[0] == c {
        assert(s.take(0) =~= Seq::<char>::empty());
        assert(s.skip(1) =~= s.drop_first());
    } else {
        let t = s.drop_first();
        lemma_split_once_at(t, c, i - 1);
        if i < s.len() {
            assert(seq![s[0]] + t.take(i - 1) =~= s.take(i));
            assert(t.skip(i) =~= s.skip(i + 1));
        }
    }
}

/// What `split_once` gives back is shorter than what it cut.
pub proof fn lemma_split_once_shorter(s: Seq<char>, c: char)
    ensures
        split_once(s, c) matches Some((a, b)) ==> a.len() + b.len() + 1 == s.len(),
    decreases s.len(),
{
    if s.len() > 0 && s[0] != c {
        lemma_split_once_shorter(s.drop_first(), c);
    }
}

// ---------------------------------------------------------------- exec

/// `String::push` of std, which vstd does not specify: the contract claims
/// that the string afterwards holds its old characters and then `c`, as
/// the documentation of `String::push` says ("Appends the given char to the
/// end of this String").
#[verifier::external_body]
fn push_char(s: &mut String, c: char)
    ensures
        final(s)@ == old(s)@.push(c),
{
    s.push(c);
}

/// The characters of `s`.
pub fn chars_of(s: &str) -> (v: Vec<char>)
    ensures
        v@ == s@,
{
    let n = s.unicode_len();
    let mut v: Vec<char> = Vec::new();
    let mut i: usize = 0;
    while i < n
        invariant
            n == s@.len(),
            i <= n,
            v@ == s@.take(i as int),
        decreases n - i,
    {
        v.push(s.get_char(i));
        i += 1;
        assert(v@ =~= s@.take(i as int));
    }
    assert(v@ =~= s@);
    v
}

/// The string of the characters `v`.
pub fn string_of(v: &Vec<char>) -> (s: String)
    ensures
        s@ == v@,
{
    let mut s = String::new();
    let mut i: usize = 0;
    while i < v.len()
        invariant
            i <= v.len(),
            s@ == v@.take(i as int),
        decreases v.len() - i,
    {
        push_char(&mut s, v[i]);
        i += 1;
        assert(s@ =~= v@.take(i as int));
    }
    assert(v@.take(v.len() as int) =~= v@);
    s
}

/// A copy of `v`.
pub fn copy_chars(v: &Vec<char>) -> (r: Vec<char>)
    ensures
        r@ == v@,
{
    let r = slice_of(v, 0, v.len());
    assert(r@ =~= v@);
    r
}

/// A copy of `v[from..to]`.
pub fn slice_of(v: &Vec<char>, from: usize, to: usize) -> (r: Vec<char>)
    requires
        from <= to <= v.len(),
    ensures
        r@ == v@.subrange(from as int, to as int),
{
    let mut r: Vec<char> = Vec::new();
    let mut i: usize = from;
    while i < to
        invariant
            from <= i <= to <= v.len(),
            r@ == v@.subrange(from as int, i as int),
        decreases to - i,
    {
        r.push(v[i]);
        i += 1;
        assert(r@ =~= v@.subrange(from as int, i as int));
    }
    r
}

/// The concatenation `a + b`.
pub fn concat(a: &Vec<char>, b: &Vec<char>) -> (r: Vec<char>)
    ensures
        r@ == a@ + b@,
{
    let mut r = slice_of(a, 0, a.len());
    let mut i: usize = 0;
    while i < b.len()
        invariant
            i <= b.len(),
            r@ == a@ + b@.take(i as int),
        decreases b.len() - i,
    {
        r.push(b[i]);
        i += 1;
        assert(r@ =~= a@ + b@.take(i as int));
    }
    assert(b@.take(b.len() as int) =~= b@);
    r
}

pub fn is_white_char(c: char) -> (b: bool)
    ensures
        b == is_white(c),
{
    ('\u{9}' <= c && c <= '\u{d}') || c == ' ' || c == '\u{85}' || c == '\u{a0}' || c == '\u{1680}'
        || ('\u{2000}' <= c && c <= '\u{200a}') || c == '\u{2028}' || c == '\u{2029}' || c
        == '\u{202f}' || c == '\u{205f}' || c == '\u{3000}'
}

pub fn is_ascii_digit_char(c: char) -> (b: bool)
    ensures
        b == is_ascii_digit(c),
{
    '0' <= c && c <= '9'
}

/// `v` without its trailing `c`s.
pub fn trim_end_char_vec(v: &Vec<char>, c: char) -> (r: Vec<char>)
    ensures
        r@ == trim_end_char(v@, c),
{
    let mut hi = v.len();
    assert(v@.take(v.len() as int) =~= v@);
    while hi > 0 && v[hi - 1] == c
        invariant
            hi <= v.len(),
            trim_end_char(v@.take(hi as int), c) == trim_end_char(v@, c),
        decreases hi,
    {
        assert(v@.take(hi as int).drop_last() =~= v@.take(hi - 1));
        hi -= 1;
    }
    assert(v@.take(v.len() as int) =~= v@);
    let r = slice_of(v, 0, hi);
    assert(r@ =~= v@.take(hi as int));
    r
}

/// `v` without its leading `c`s.
pub fn trim_start_char_vec(v: &Vec<char>, c: char) -> (r: Vec<char>)
    ensures
        r@ == trim_start_char(v@, c),
{
    let mut lo: usize = 0;
    assert(v@.skip(0) =~= v@);
    while lo < v.len() && v[lo] == c
        invariant
            lo <= v.len(),
            trim_start_char(v@.skip(lo as int), c) == trim_start_char(v@, c),
        decreases v.len() - lo,
    {
        assert(v@.skip(lo as int).drop_first() =~= v@.skip(lo + 1));
        lo += 1;
    }
    let r = slice_of(v, lo, v.len());
    assert(r@ =~= v@.skip(lo as int));
    r
}

fn trim_start_white_vec(v: &Vec<char>) -> (r: Vec<char>)
    ensures
        r@ == trim_start_white(v@),
{
    let mut lo: usize = 0;
    assert(v@.skip(0) =~= v@);
    while lo < v.len() && is_white_char(v[lo])
        invariant
            lo <= v.len(),
            trim_start_white(v@.skip(lo as int)) == trim_start_white(v@),
        decreases v.len() - lo,
    {
        assert(v@.skip(lo as int).drop_first() =~= v@.skip(lo + 1));
        lo += 1;
    }
    let r = slice_of(v, lo, v.len());
    assert(r@ =~= v@.skip(lo as int));
    r
}

fn trim_end_white_vec(v: &Vec<char>) -> (r: Vec<char>)
    ensures
        r@ == trim_end_white(v@),
{
    let mut hi = v.len();
    assert(v@.take(v.len() as int) =~= v@);
    while hi > 0 && is_white_char(v[hi - 1])
        invariant
            hi <= v.len(),
            trim_end_white(v@.take(hi as int)) == trim_end_white(v@),
        decreases hi,
    {
        assert(v@.take(hi as int).drop_last() =~= v@.take(hi - 1));
        hi -= 1;
    }
    let r = slice_of(v, 0, hi);
    assert(r@ =~= v@.take(hi as int));
    r
}

/// `str::trim`.
pub fn trim_white_vec(v: &Vec<char>) -> (r: Vec<char>)
    ensures
        r@ == trim_white(v@),
{
    let mid = trim_start_white_vec(v);
    trim_end_white_vec(&mid)
}

/// `v` starts with `p`.
pub fn starts_with_vec(v: &Vec<char>, p: &[char]) -> (b: bool)
    ensures
        b == starts_with(v@, p@),
{
    if p.len() > v.len() {
        return false;
    }
    let mut i: usize = 0;
    while i < p.len()
        invariant
            p.len() <= v.len(),
            i <= p.len(),
            forall|j: int| 0 <= j < i ==> v@[j] == p@[j],
        decreases p.len() - i,
    {
        if v[i] != p[i] {
            assert(v@.take(p.len() as int)[i as int] != p@[i as int]);
            return false;
        }
        i += 1;
    }
    assert(v@.take(p.len() as int) =~= p@);
    true
}

/// `v` ends with `p`.
pub fn ends_with_vec(v: &Vec<char>, p: &[char]) -> (b: bool)
    ensures
        b == ends_with(v@, p@),
{
    if p.len() > v.len() {
        return false;
    }
    let off = v.len() - p.len();
    let mut i: usize = 0;
    while i < p.len()
        invariant
            p.len() <= v.len(),
            off == v.len() - p.len(),
            i <= p.len(),
            forall|j: int| 0 <= j < i ==> v@[off + j] == p@[j],
        decreases p.len() - i,
    {
        if v[off + i] != p[i] {
            assert(v@.skip(off as int)[i as int] != p@[i as int]);
            return false;
        }
        i += 1;
    }
    assert(v@.skip(off as int) =~= p@);
    true
}

/// `v` without its prefix `p`, if it has that prefix.
pub fn strip_prefix_vec(v: &Vec<char>, p: &[char]) -> (r: Option<Vec<char>>)
    ensures
        r is Some <==> starts_with(v@, p@),
        r matches Some(rest) ==> rest@ == v@.skip(p@.len() as int),
{
    if starts_with_vec(v, p) {
        let rest = slice_of(v, p.len(), v.len());
        assert(rest@ =~= v@.skip(p@.len() as int));
        Some(rest)
    } else {
        None
    }
}

/// `v` without each trailing copy of the nonempty `p`.
pub fn trim_end_seq_vec(v: &Vec<char>, p: &[char]) -> (r: Vec<char>)
    requires
        p@.len() > 0,
    ensures
        r@ == trim_end_seq(v@, p@),
{
    let mut cur = slice_of(v, 0, v.len());
    assert(cur@ =~= v@);
    while ends_with_vec(&cur, p)
        invariant
            p@.len() > 0,
            trim_end_seq(cur@, p@) == trim_end_seq(v@, p@),
        decreases cur@.len(),
    {
        cur = slice_of(&cur, 0, cur.len() - p.len());
    }
    cur
}

/// The parts of `v` before and after its first `c`.
pub fn split_once_vec(v: &Vec<char>, c: char) -> (r: Option<(Vec<char>, Vec<char>)>)
    ensures
        match r {
            Some((a, b)) => split_once(v@, c) == Some((a@, b@)),
            None => split_once(v@, c) is None,
        },
{
    let mut i: usize = 0;
    while i < v.len() && v[i] != c
        invariant
            i <= v.len(),
            forall|j: int| 0 <= j < i ==> v@[j] != c,
        decreases v.len() - i,
    {
        i += 1;
    }
    proof {
        lemma_split_once_at(v@, c, i as int);
    }
    if i < v.len() {
        let a = slice_of(v, 0, i);
        let b = slice_of(v, i + 1, v.len());
        assert(a@ =~= v@.take(i as int));
        assert(b@ =~= v@.skip(i + 1));
        Some((a, b))
    } else {
        None
    }
}

/// The strings of `list` with `sep` between each two.
pub fn join_strings(list: &Vec<String>, sep: &str) -> (r: String)
    ensures
        r@ == join_with(string_views(list@), sep@),
{
    let mut r = String::new();
    let mut i: usize = 0;
    while i < list.len()
        invariant
            i <= list.len(),
            r@ == join_with(string_views(list@).take(i as int), sep@),
        decreases list.len() - i,
    {
        let ghost prev = string_views(list@).take(i as int);
        if i > 0 {
            r.append(sep);
        }
        r.append(list[i].as_str());
        proof {
            let next = string_views(list@).take(i + 1);
            assert(next.drop_last() =~= prev);
            if i == 0 {
                assert(r@ =~= next[0]);
            }
        }
        i += 1;
    }
    assert(string_views(list@).take(list.len() as int) =~= string_views(list@));
    r
}

fn digit_of(d: u64) -> (c: char)
    requires
        d < 10,
    ensures
        c == digit_char(d as nat),
{
    if d == 0 { '0' } else if d == 1 { '1' } else if d == 2 { '2' } else if d == 3 { '3' }
    else if d == 4 { '4' } else if d == 5 { '5' } else if d == 6 { '6' } else if d == 7 { '7' }
    else if d == 8 { '8' } else { '9' }
}

fn decimal_chars(n: u64) -> (r: Vec<char>)
    ensures
        r@ == decimal(n as nat),
    decreases n,
{
    if n < 10 {
        let mut r: Vec<char> = Vec::new();
        r.push(digit_of(n));
        assert(r@ =~= seq![digit_char(n as nat)]);
        r
    } else {
        let mut r = decimal_chars(n / 10);
        r.push(digit_of(n % 10));
        r
    }
}

/// The decimal numeral of `n`.
pub fn decimal_string(n: usize) -> (s: String)
    ensures
        s@ == decimal(n as nat),
{
    string_of(&decimal_chars(n as u64))
}

/// `a` and `b` hold the same characters.
pub fn chars_eq(a: &Vec<char>, b: &Vec<char>) -> (r: bool)
    ensures
        r == (a@ == b@),
{
    if a.len() != b.len() {
        return false;
    }
    let mut i: usize = 0;
    while i < a.len()
        invariant
            a.len() == b.len(),
            i <= a.len(),
            forall|j: int| 0 <= j < i ==> a@[j] == b@[j],
        decreases a.len() - i,
    {
        if a[i] != b[i] {
            return false;
        }
        i += 1;
    }
    assert(a@ =~= b@);
    true
}

/// The strings of the character vectors.
pub fn strings_of(v: &Vec<Vec<char>>) -> (r: Vec<String>)
    ensures
        string_views(r@) == views(v@),
{
    let mut r: Vec<String> = Vec::new();
    let mut i: usize = 0;
    while i < v.len()
        invariant
            i <= v.len(),
            string_views(r@) == views(v@).take(i as int),
        decreases v.len() - i,
    {
        let s = string_of(&v[i]);
        let ghost before = string_views(r@);
        r.push(s);
        assert(string_views(r@) =~= before.push(s@));
        assert(views(v@).take(i + 1) =~= views(v@).take(i as int).push(v@[i as int]@));
        i += 1;
    }
    assert(views(v@).take(i as int) =~= views(v@));
    r
}

/// `str::split(c)` over characters.
pub fn split_all_vec(v: &Vec<char>, c: char) -> (r: Vec<Vec<char>>)
    ensures
        views(r@) == split_all(v@, c),
{
    let mut acc: Vec<Vec<char>> = Vec::new();
    let mut pos: usize = 0;
    assert(v@.skip(0) =~= v@);
    assert(views(acc@) + split_all(v@, c) =~= split_all(v@, c));
    loop
        invariant
            pos <= v.len(),
            views(acc@) + split_all(v@.skip(pos as int), c) == split_all(v@, c),
        decreases v.len() - pos,
    {
        let ghost rest = v@.skip(pos as int);
        let mut j: usize = pos;
        while j < v.len() && v[j] != c
            invariant
                pos <= j <= v.len(),
                rest == v@.skip(pos as int),
                forall|k: int| pos <= k < j ==> v@[k] != c,
            decreases v.len() - j,
        {
            j += 1;
        }
        proof {
            lemma_split_once_at(rest, c, j - pos);
            lemma_split_once_shorter(rest, c);
        }
        let piece = slice_of(v, pos, j);
        let ghost before = views(acc@);
        acc.push(piece);
        assert(views(acc@) =~= before.push(piece@));
        if j < v.len() {
            proof {
                assert(rest.take(j - pos) =~= piece@);
                assert(rest.skip(j - pos + 1) =~= v@.skip(j + 1));
                assert(split_all(rest, c) == seq![piece@] + split_all(v@.skip(j + 1), c));
                assert(views(acc@) + split_all(v@.skip(j + 1), c) =~= before + split_all(rest, c));
            }
            pos = j + 1;
        } else {
            proof {
                assert(piece@ =~= rest);
                assert(split_all(rest, c) == seq![rest]);
                assert(views(acc@) =~= before + split_all(rest, c));
            }
            return acc;
        }
    }
}

/// `str::lines` over characters.
pub fn lines_vec(v: &Vec<char>) -> (r: Vec<Vec<char>>)
    ensures
        views(r@) == lines(v@),
{
    let mut acc: Vec<Vec<char>> = Vec::new();
    let mut pos: usize = 0;
    assert(v@.skip(0) =~= v@);
    assert(views(acc@) + lines(v@) =~= lines(v@));
    while pos < v.len()
        invariant
            pos <= v.len(),
            views(acc@) + lines(v@.skip(pos as int)) == lines(v@),
        decreases v.len() - pos,
    {
        let ghost rest = v@.skip(pos as int);
        let mut j: usize = pos;
        while j < v.len() && v[j] != '\n'
            invariant
                pos <= j <= v.len(),
                rest == v@.skip(pos as int),
                forall|k: int| pos <= k < j ==> v@[k] != '\n',
            decreases v.len() - j,
        {
            j += 1;
        }
        proof {
            lemma_split_once_at(rest, '\n', j - pos);
            lemma_split_once_shorter(rest, '\n');
        }
        if j < v.len() {
            let mut end = j;
            if end > pos && v[end - 1] == '\r' {
                end -= 1;
            }
            let line = slice_of(v, pos, end);
            proof {
                assert(rest.take(j - pos) =~= v@.subrange(pos as int, j as int));
                assert(line@ =~= strip_cr(rest.take(j - pos)));
                assert(rest.skip(j - pos + 1) =~= v@.skip(j + 1));
            }
            let ghost before = views(acc@);
            acc.push(line);
            proof {
                assert(views(acc@) =~= before.push(line@));
                assert(lines(rest) == seq![line@] + lines(v@.skip(j + 1)));
                assert(views(acc@) + lines(v@.skip(j + 1)) =~= before + lines(rest));
            }
            pos = j + 1;
        } else {
            let line = slice_of(v, pos, v.len());
            let ghost before = views(acc@);
            acc.push(line);
            proof {
                assert(line@ =~= rest);
                assert(lines(rest) == seq![rest]);
                assert(views(acc@) =~= before.push(line@));
                assert(v@.skip(v.len() as int) =~= Seq::<char>::empty());
                assert(views(acc@) + lines(v@.skip(v.len() as int)) =~= before + lines(rest));
            }
            pos = v.len();
        }
    }
    assert(v@.skip(pos as int) =~= Seq::<char>::empty());
    assert(views(acc@) + Seq::<Seq<char>>::empty() =~= views(acc@));
    acc
}

} // verus!
