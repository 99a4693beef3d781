//! Character-level text operations used by the output parsers: the
//! whitespace class, trimming, splitting into lines, words and pieces,
//! searching, joining and decimal numbers. Each operation is stated as a
//! spec function over `Seq<char>` and implemented over `Vec<char>`.
use vstd::prelude::*;

verus! {

broadcast use vstd::string::group_string_axioms;

// ---------------------------------------------------------------------
// Conversions between strings and character vectors
// ---------------------------------------------------------------------

/// The characters of `s`, in order.
pub fn chars_of(s: &str) -> (v: Vec<char>)
    ensures
        v@ == s@,
{
    let mut v: Vec<char> = Vec::new();
    for c in it: s.chars()
        invariant
            it.seq() == s@,
            v@ == it.seq().take(it.index() as int),
    {
        v.push(c);
    }
    v
}

/// `String::from_iter` over the characters of a slice: claims that the
/// string holds exactly those characters, in order.
#[verifier::external_body]
pub fn string_of(v: &[char]) -> (s: String)
    ensures
        s@ == v@,
{
    String::from_iter(v)
}

/// A string holding the characters of `s`.
pub fn owned(s: &str) -> (r: String)
    ensures
        r@ == s@,
{
    s.to_owned()
}

/// The views of a sequence of strings.
pub open spec fn views(v: Seq<String>) -> Seq<Seq<char>> {
    v.map_values(|s: String| s@)
}

/// Turns character vectors into strings.
pub fn strings_of(v: &Vec<Vec<char>>) -> (r: Vec<String>)
    ensures
        views(r@) == v@.map_values(|w: Vec<char>| w@),
{
    let mut r: Vec<String> = Vec::new();
    for i in 0..v.len()
        invariant
            views(r@) == v@.take(i as int).map_values(|w: Vec<char>| w@),
    {
        let ghost before = r@;
        r.push(string_of(v[i].as_slice()));
        assert(v@.take(i + 1) == v@.take(i as int).push(v@[i as int]));
        assert(views(r@) =~= views(before).push(v@[i as int]@));
        assert(v@.take(i + 1).map_values(|w: Vec<char>| w@) =~= v@.take(i as int).map_values(
            |w: Vec<char>| w@,
        ).push(v@[i as int]@));
    }
    assert(v@.take(v.len() as int) == v@);
    r
}

/// Copies `s[from..to]`.
pub fn slice_copy(s: &[char], from: usize, to: usize) -> (r: Vec<char>)
    requires
        from <= to <= s@.len(),
    ensures
        r@ == s@.subrange(from as int, to as int),
{
    let mut r: Vec<char> = Vec::new();
    let mut i = from;
    while i < to
        invariant
            from <= i <= to <= s@.len(),
            r@ == s@.subrange(from as int, i as int),
        decreases to - i,
    {
        r.push(s[i]);
        i += 1;
        assert(r@ == s@.subrange(from as int, i as int));
    }
    r
}

/// Appends the characters of `t` to `r`.
pub fn push_all(r: &mut Vec<char>, t: &[char])
    ensures
        final(r)@ == old(r)@ + t@,
{
    let mut i: usize = 0;
    while i < t.len()
        invariant
            i <= t@.len(),
            r@ == old(r)@ + t@.take(i as int),
        decreases t.len() - i,
    {
        r.push(t[i]);
        i += 1;
        assert(r@ == old(r)@ + t@.take(i as int));
    }
    assert(t@.take(t@.len() as int) == t@);
}

/// `s` followed by `t`.
pub fn concat(s: &[char], t: &[char]) -> (r: Vec<char>)
    ensures
        r@ == s@ + t@,
{
    let mut r = slice_copy(s, 0, s.len());
    let mut i: usize = 0;
    while i < t.len()
        invariant
            i <= t@.len(),
            r@ == s@ + t@.take(i as int),
        decreases t.len() - i,
    {
        r.push(t[i]);
        i += 1;
        assert(r@ == s@ + t@.take(i as int));
    }
    assert(t@.take(t@.len() as int) == t@);
    r
}

/// Whether two character slices are equal.
pub fn same(s: &[char], t: &[char]) -> (b: bool)
    ensures
        b == (s@ == t@),
{
    if s.len() != t.len() {
        return false;
    }
    let mut i: usize = 0;
    while i < s.len()
        invariant
            s@.len() == t@.len(),
            i <= s@.len(),
            forall|k: int| 0 <= k < i ==> s@[k] == t@[k],
        decreases s.len() - i,
    {
        if s[i] != t[i] {
            return false;
        }
        i += 1;
    }
    assert(s@ =~= t@);
    true
}

// ---------------------------------------------------------------------
// Whitespace and trimming
// ---------------------------------------------------------------------

/// `char::is_whitespace`: the Unicode `White_Space` property.
pub open spec fn is_space(c: char) -> bool {
    let n = c as u32;
    ||| n == 0x20
    ||| 0x09 <= n <= 0x0d
    ||| n == 0x85
    ||| n == 0xa0
    ||| n == 0x1680
    ||| 0x2000 <= n <= 0x200a
    ||| n == 0x2028
    ||| n == 0x2029
    ||| n == 0x202f
    ||| n == 0x205f
    ||| n == 0x3000
}

pub fn is_whitespace(c: char) -> (b: bool)
    ensures
        b == is_space(c),
{
    let n = c as u32;
    n == 0x20 || (0x09 <= n && n <= 0x0d) || n == 0x85 || n == 0xa0 || n == 0x1680 || (0x2000
        <= n && n <= 0x200a) || n == 0x2028 || n == 0x2029 || n == 0x202f || n == 0x205f || n
        == 0x3000
}

/// `str::trim_start`: drops the leading whitespace.
pub open spec fn trim_start(s: Seq<char>) -> Seq<char>
    decreases s.len(),
{
    if s.len() > 0 && is_space(s[0]) {
        trim_start(s.drop_first())
    } else {
        s
    }
}

/// `str::trim_end`: drops the trailing whitespace.
pub open spec fn trim_end(s: Seq<char>) -> Seq<char>
    decreases s.len(),
{
    if s.len() > 0 && is_space(s.last()) {
        trim_end(s.drop_last())
    } else {
        s
    }
}

/// `str::trim`: drops whitespace at both ends.
pub open spec fn trim(s: Seq<char>) -> Seq<char> {
    trim_end(trim_start(s))
}

/// `str::trim_end_matches(c)` for a single character: drops every trailing `c`.
pub open spec fn trim_end_char(s: Seq<char>, c: char) -> Seq<char>
    decreases s.len(),
{
    if s.len() > 0 && s.last() == c {
        trim_end_char(s.drop_last(), c)
    } else {
        s
    }
}

/// `str::trim_start_matches(c)` for a single character: drops every leading `c`.
pub open spec fn trim_start_char(s: Seq<char>, c: char) -> Seq<char>
    decreases s.len(),
{
    if s.len() > 0 && s[0] == c {
        trim_start_char(s.drop_first(), c)
    } else {
        s
    }
}

/// Index of the first character of `s` that is not whitespace (or `s.len()`).
fn first_non_space(s: &[char]) -> (i: usize)
    ensures
        i <= s@.len(),
        trim_start(s@) == s@.skip(i as int),
{
    let mut i: usize = 0;
    assert(s@.skip(0) == s@);
    while i < s.len() && is_whitespace(s[i])
        invariant
            i <= s@.len(),
            trim_start(s@) == trim_start(s@.skip(i as int)),
        decreases s.len() - i,
    {
        assert(s@.skip(i as int).drop_first() == s@.skip(i + 1));
        i += 1;
    }
    i
}

/// Trailing boundary: `trim_end(s[..j]) == s[..j']` for the returned `j'`.
fn last_non_space(s: &[char], j: usize) -> (k: usize)
    requires
        j <= s@.len(),
    ensures
        k <= j,
        trim_end(s@.take(j as int)) == s@.take(k as int),
{
    let mut k = j;
    while k > 0 && is_whitespace(s[k - 1])
        invariant
            k <= j <= s@.len(),
            trim_end(s@.take(j as int)) == trim_end(s@.take(k as int)),
        decreases k,
    {
        assert(s@.take(k as int).drop_last() == s@.take(k - 1));
        k -= 1;
    }
    k
}

pub fn trim_chars(s: &[char]) -> (r: Vec<char>)
    ensures
        r@ == trim(s@),
{
    let i = first_non_space(s);
    let t = slice_copy(s, i, s.len());
    let m = last_non_space(t.as_slice(), t.len());
    assert(t@.take(t@.len() as int) == t@);
    slice_copy(t.as_slice(), 0, m)
}

pub fn trim_start_chars(s: &[char]) -> (r: Vec<char>)
    ensures
        r@ == trim_start(s@),
{
    let i = first_non_space(s);
    slice_copy(s, i, s.len())
}

pub fn trim_end_char_chars(s: &[char], c: char) -> (r: Vec<char>)
    ensures
        r@ == trim_end_char(s@, c),
{
    let mut k = s.len();
    assert(s@.take(k as int) == s@);
    while k > 0 && s[k - 1] == c
        invariant
            k <= s@.len(),
            trim_end_char(s@, c) == trim_end_char(s@.take(k as int), c),
        decreases k,
    {
        assert(s@.take(k as int).drop_last() == s@.take(k - 1));
        k -= 1;
    }
    slice_copy(s, 0, k)
}

pub fn trim_start_char_chars(s: &[char], c: char) -> (r: Vec<char>)
    ensures
        r@ == trim_start_char(s@, c),
{
    let mut i: usize = 0;
    assert(s@.skip(0) == s@);
    while i < s.len() && s[i] == c
        invariant
            i <= s@.len(),
            trim_start_char(s@, c) == trim_start_char(s@.skip(i as int), c),
        decreases s.len() - i,
    {
        assert(s@.skip(i as int).drop_first() == s@.skip(i + 1));
        i += 1;
    }
    slice_copy(s, i, s.len())
}

// ---------------------------------------------------------------------
// Splitting at a single character, lines, words
// ---------------------------------------------------------------------

/// `str::split(c)` for a single character: the pieces between occurrences of `c`.
/// There is always at least one piece.
pub open spec fn split_on(s: Seq<char>, c: char) -> Seq<Seq<char>>
    decreases s.len(),
{
    if s.len() == 0 {
        seq![Seq::empty()]
    } else {
        let p = split_on(s.drop_last(), c);
        if s.last() == c {
            p.push(Seq::empty())
        } else {
            p.update(p.len() - 1, p.last().push(s.last()))
        }
    }
}

/// The pieces of `s` between whitespace characters (empty pieces included).
pub open spec fn split_space(s: Seq<char>) -> Seq<Seq<char>>
    decreases s.len(),
{
    if s.len() == 0 {
        seq![Seq::empty()]
    } else {
        let p = split_space(s.drop_last());
        if is_space(s.last()) {
            p.push(Seq::empty())
        } else {
            p.update(p.len() - 1, p.last().push(s.last()))
        }
    }
}

/// Keeps the non-empty pieces, in order.
pub open spec fn non_empty(p: Seq<Seq<char>>) -> Seq<Seq<char>>
    decreases p.len(),
{
    if p.len() == 0 {
        Seq::empty()
    } else if p.last().len() == 0 {
        non_empty(p.drop_last())
    } else {
        non_empty(p.drop_last()).push(p.last())
    }
}

/// `str::split_whitespace`: the maximal runs of non-whitespace characters.
pub open spec fn words(s: Seq<char>) -> Seq<Seq<char>> {
    non_empty(split_space(s))
}

/// Drops one trailing carriage return.
pub open spec fn strip_cr(l: Seq<char>) -> Seq<char> {
    if l.len() > 0 && l.last() == '\r' {
        l.drop_last()
    } else {
        l
    }
}

/// `str::lines`: lines end at `\n` or `\r\n`; the final line ending is optional,
/// and a final empty piece is not a line.
pub open spec fn lines(s: Seq<char>) -> Seq<Seq<char>> {
    let p = split_on(s, '\n');
    p.drop_last().map_values(|l: Seq<char>| strip_cr(l)) + if p.last().len() > 0 {
        seq![p.last()]
    } else {
        Seq::empty()
    }
}

pub proof fn lemma_split_on_len(s: Seq<char>, c: char)
    ensures
        split_on(s, c).len() >= 1,
    decreases s.len(),
{
    if s.len() > 0 {
        lemma_split_on_len(s.drop_last(), c);
    }
}

pub proof fn lemma_split_space_len(s: Seq<char>)
    ensures
        split_space(s).len() >= 1,
    decreases s.len(),
{
    if s.len() > 0 {
        lemma_split_space_len(s.drop_last());
    }
}

/// `split_on(s, c)`, computed.
pub fn split_on_chars(s: &[char], c: char) -> (r: Vec<Vec<char>>)
    ensures
        r@.map_values(|w: Vec<char>| w@) == split_on(s@, c),
{
    let mut done: Vec<Vec<char>> = Vec::new();
    let mut cur: Vec<char> = Vec::new();
    let mut i: usize = 0;
    assert(s@.take(0) =~= Seq::<char>::empty());
    while i < s.len()
        invariant
            i <= s@.len(),
            done@.map_values(|w: Vec<char>| w@).push(cur@) == split_on(s@.take(i as int), c),
        decreases s.len() - i,
    {
        let ghost t = s@.take(i + 1);
        assert(t.drop_last() == s@.take(i as int));
        proof { lemma_split_on_len(s@.take(i as int), c); }
        if s[i] == c {
            let old_cur = cur;
            cur = Vec::new();
            let ghost before = done@;
            done.push(old_cur);
            assert(done@.map_values(|w: Vec<char>| w@) =~= before.map_values(|w: Vec<char>| w@).push(old_cur@));
        } else {
            cur.push(s[i]);
            assert(done@.map_values(|w: Vec<char>| w@).push(cur@) =~= split_on(t, c));
        }
        i += 1;
    }
    assert(s@.take(s@.len() as int) == s@);
    let ghost before = done@;
    done.push(cur);
    assert(done@.map_values(|w: Vec<char>| w@) =~= before.map_values(|w: Vec<char>| w@).push(cur@));
    done
}

/// The views of a sequence of character vectors.
pub open spec fn cviews(v: Seq<Vec<char>>) -> Seq<Seq<char>> {
    v.map_values(|w: Vec<char>| w@)
}

/// `split_space(s)`, computed.
pub fn split_space_chars(s: &[char]) -> (r: Vec<Vec<char>>)
    ensures
        cviews(r@) == split_space(s@),
{
    let mut done: Vec<Vec<char>> = Vec::new();
    let mut cur: Vec<char> = Vec::new();
    let mut i: usize = 0;
    assert(s@.take(0) =~= Seq::<char>::empty());
    while i < s.len()
        invariant
            i <= s@.len(),
            cviews(done@).push(cur@) == split_space(s@.take(i as int)),
        decreases s.len() - i,
    {
        let ghost t = s@.take(i + 1);
        assert(t.drop_last() == s@.take(i as int));
        proof { lemma_split_space_len(s@.take(i as int)); }
        if is_whitespace(s[i]) {
            let old_cur = cur;
            cur = Vec::new();
            let ghost before = done@;
            done.push(old_cur);
            assert(cviews(done@) =~= cviews(before).push(old_cur@));
        } else {
            cur.push(s[i]);
            assert(cviews(done@).push(cur@) =~= split_space(t));
        }
        i += 1;
    }
    assert(s@.take(s@.len() as int) == s@);
    let ghost before = done@;
    done.push(cur);
    assert(cviews(done@) =~= cviews(before).push(cur@));
    done
}

/// Copies of the non-empty vectors of `p`, in order.
pub fn non_empty_chars(p: &Vec<Vec<char>>) -> (r: Vec<Vec<char>>)
    ensures
        cviews(r@) == non_empty(cviews(p@)),
{
    let mut r: Vec<Vec<char>> = Vec::new();
    let mut i: usize = 0;
    assert(cviews(p@).take(0) =~= Seq::<Seq<char>>::empty());
    while i < p.len()
        invariant
            i <= p@.len(),
            cviews(r@) == non_empty(cviews(p@).take(i as int)),
        decreases p.len() - i,
    {
        assert(cviews(p@).take(i + 1).drop_last() =~= cviews(p@).take(i as int));
        if p[i].len() > 0 {
            let w = slice_copy(p[i].as_slice(), 0, p[i].len());
            let ghost before = r@;
            r.push(w);
            assert(cviews(r@) =~= cviews(before).push(w@));
            assert(w@ =~= p@[i as int]@);
        }
        i += 1;
    }
    assert(cviews(p@).take(p@.len() as int) == cviews(p@));
    r
}

/// `words(s)`, computed.
pub fn words_of(s: &[char]) -> (r: Vec<Vec<char>>)
    ensures
        cviews(r@) == words(s@),
{
    let p = split_space_chars(s);
    non_empty_chars(&p)
}

/// `strip_cr(s)`, computed.
pub fn strip_cr_chars(s: &[char]) -> (r: Vec<char>)
    ensures
        r@ == strip_cr(s@),
{
    if s.len() > 0 && s[s.len() - 1] == '\r' {
        slice_copy(s, 0, s.len() - 1)
    } else {
        slice_copy(s, 0, s.len())
    }
}

/// `lines(s)`, computed.
pub fn lines_of(s: &[char]) -> (r: Vec<Vec<char>>)
    ensures
        cviews(r@) == lines(s@),
{
    let p = split_on_chars(s, '\n');
    proof { lemma_split_on_len(s@, '\n'); }
    let ghost pv = split_on(s@, '\n');
    assert(cviews(p@) == pv);
    let n = p.len() - 1;
    let mut r: Vec<Vec<char>> = Vec::new();
    let mut i: usize = 0;
    while i < n
        invariant
            n == p@.len() - 1,
            i <= n,
            cviews(p@) == pv,
            cviews(r@) == pv.take(i as int).map_values(|l: Seq<char>| strip_cr(l)),
        decreases n - i,
    {
        let w = strip_cr_chars(p[i].as_slice());
        let ghost before = r@;
        r.push(w);
        assert(cviews(r@) =~= cviews(before).push(w@));
        assert(pv[i as int] == p@[i as int]@);
        assert(pv.take(i + 1).map_values(|l: Seq<char>| strip_cr(l)) =~= pv.take(
            i as int,
        ).map_values(|l: Seq<char>| strip_cr(l)).push(strip_cr(pv[i as int])));
        i += 1;
    }
    assert(pv.take(n as int) =~= pv.drop_last());
    assert(pv.last() == p@[n as int]@);
    let ghost front = pv.drop_last().map_values(|l: Seq<char>| strip_cr(l));
    assert(cviews(r@) == front);
    if p[n].len() > 0 {
        let w = slice_copy(p[n].as_slice(), 0, p[n].len());
        let ghost before = r@;
        r.push(w);
        assert(w@ =~= p@[n as int]@);
        assert(cviews(r@) =~= cviews(before).push(w@));
        assert(cviews(r@) =~= front + seq![pv.last()]);
    } else {
        assert(cviews(r@) =~= front + Seq::<Seq<char>>::empty());
    }
    r
}

// ---------------------------------------------------------------------
// Searching for and splitting at a pattern
// ---------------------------------------------------------------------

/// `p` occurs in `s` at index `i`.
pub open spec fn matches_at(s: Seq<char>, p: Seq<char>, i: int) -> bool {
    0 <= i && i + p.len() <= s.len() && s.subrange(i, i + p.len()) == p
}

/// The first index `>= i` at which `p` occurs in `s`.
pub open spec fn find_from(s: Seq<char>, p: Seq<char>, i: int) -> Option<int>
    decreases s.len() + 1 - i,
{
    if i < 0 || i > s.len() || i + p.len() > s.len() {
        None
    } else if matches_at(s, p, i) {
        Some(i)
    } else {
        find_from(s, p, i + 1)
    }
}

/// `str::find(p)`: the first index at which `p` occurs.
pub open spec fn find(s: Seq<char>, p: Seq<char>) -> Option<int> {
    find_from(s, p, 0)
}

/// `str::contains(p)`.
pub open spec fn contains(s: Seq<char>, p: Seq<char>) -> bool {
    find(s, p) is Some
}

/// `str::starts_with(p)`.
pub open spec fn starts_with(s: Seq<char>, p: Seq<char>) -> bool {
    p.len() <= s.len() && s.take(p.len() as int) == p
}

/// `str::ends_with(p)`.
pub open spec fn ends_with(s: Seq<char>, p: Seq<char>) -> bool {
    p.len() <= s.len() && s.skip(s.len() - p.len()) == p
}

/// `str::split_once(p)`: the parts before and after the first occurrence of `p`.
pub open spec fn split_once(s: Seq<char>, p: Seq<char>) -> Option<(Seq<char>, Seq<char>)> {
    match find(s, p) {
        Some(i) => Some((s.take(i), s.skip(i + p.len()))),
        None => None,
    }
}

/// The pieces of `s[start..]` between the non-overlapping occurrences of `p`
/// found scanning left to right from `i`.
pub open spec fn split_from(s: Seq<char>, p: Seq<char>, i: int, start: int) -> Seq<Seq<char>>
    decreases s.len() + 1 - i,
{
    if p.len() == 0 || i < 0 || i > s.len() || i + p.len() > s.len() {
        seq![s.subrange(start, s.len() as int)]
    } else if matches_at(s, p, i) {
        seq![s.subrange(start, i)] + split_from(s, p, i + p.len(), i + p.len())
    } else {
        split_from(s, p, i + 1, start)
    }
}

/// `str::split(p)` for a non-empty string pattern.
pub open spec fn split_str(s: Seq<char>, p: Seq<char>) -> Seq<Seq<char>> {
    split_from(s, p, 0, 0)
}

/// `[T]::join(sep)` / `Vec<String>::join(sep)`.
pub open spec fn join(parts: Seq<Seq<char>>, sep: Seq<char>) -> Seq<char>
    decreases parts.len(),
{
    if parts.len() == 0 {
        Seq::empty()
    } else if parts.len() == 1 {
        parts[0]
    } else {
        join(parts.drop_last(), sep) + sep + parts.last()
    }
}

pub proof fn lemma_find_from(s: Seq<char>, p: Seq<char>, i: int)
    requires
        0 <= i,
    ensures
        match find_from(s, p, i) {
            Some(j) => i <= j && matches_at(s, p, j) && forall|k: int|
                i <= k < j ==> !matches_at(s, p, k),
            None => forall|k: int| i <= k ==> !matches_at(s, p, k),
        },
    decreases s.len() + 1 - i,
{
    if i <= s.len() && i + p.len() <= s.len() && !matches_at(s, p, i) {
        lemma_find_from(s, p, i + 1);
    }
}

pub proof fn lemma_split_from_len(s: Seq<char>, p: Seq<char>, i: int, start: int)
    ensures
        split_from(s, p, i, start).len() >= 1,
    decreases s.len() + 1 - i,
{
    if p.len() == 0 || i < 0 || i > s.len() || i + p.len() > s.len() {
    } else if matches_at(s, p, i) {
        lemma_split_from_len(s, p, i + p.len(), i + p.len());
    } else {
        lemma_split_from_len(s, p, i + 1, start);
    }
}

/// Whether `p` occurs in `s` at index `i`.
pub fn matches_at_chars(s: &[char], p: &[char], i: usize) -> (b: bool)
    ensures
        b == matches_at(s@, p@, i as int),
{
    if i > s.len() || p.len() > s.len() - i {
        return false;
    }
    let mut k: usize = 0;
    while k < p.len()
        invariant
            i + p.len() <= s.len(),
            k <= p@.len(),
            forall|m: int| 0 <= m < k ==> s@[i + m] == p@[m],
        decreases p.len() - k,
    {
        if s[i + k] != p[k] {
            assert(s@.subrange(i as int, i + p@.len())[k as int] != p@[k as int]);
            return false;
        }
        k += 1;
    }
    assert(s@.subrange(i as int, i + p@.len()) =~= p@);
    true
}

/// `find(s, p)`, computed.
pub fn find_chars(s: &[char], p: &[char]) -> (r: Option<usize>)
    ensures
        match r {
            Some(i) => find(s@, p@) == Some(i as int),
            None => find(s@, p@) is None,
        },
{
    let mut i: usize = 0;
    while i <= s.len() && p.len() <= s.len() - i
        invariant
            i <= s@.len() + 1,
            find(s@, p@) == find_from(s@, p@, i as int),
        decreases s.len() + 1 - i,
    {
        if matches_at_chars(s, p, i) {
            return Some(i);
        }
        if i >= s.len() {
            assert(find_from(s@, p@, i + 1) is None);
            return None;
        }
        i += 1;
    }
    None
}

/// `contains(s, p)`, computed.
pub fn contains_chars(s: &[char], p: &[char]) -> (b: bool)
    ensures
        b == contains(s@, p@),
{
    find_chars(s, p).is_some()
}

/// `starts_with(s, p)`, computed.
pub fn starts_with_chars(s: &[char], p: &[char]) -> (b: bool)
    ensures
        b == starts_with(s@, p@),
{
    let b = matches_at_chars(s, p, 0);
    assert(b ==> s@.take(p@.len() as int) =~= s@.subrange(0, p@.len() as int));
    assert(starts_with(s@, p@) ==> s@.subrange(0, p@.len() as int) =~= s@.take(p@.len() as int));
    b
}

/// `ends_with(s, p)`, computed.
pub fn ends_with_chars(s: &[char], p: &[char]) -> (b: bool)
    ensures
        b == ends_with(s@, p@),
{
    if p.len() > s.len() {
        return false;
    }
    let b = matches_at_chars(s, p, s.len() - p.len());
    assert(s@.skip(s@.len() - p@.len()) =~= s@.subrange(s@.len() - p@.len(), s@.len() as int));
    b
}

/// `split_once(s, p)`, computed.
pub fn split_once_chars(s: &[char], p: &[char]) -> (r: Option<(Vec<char>, Vec<char>)>)
    ensures
        match r {
            Some((a, b)) => split_once(s@, p@) == Some((a@, b@)),
            None => split_once(s@, p@) is None,
        },
{
    let n = s.len();
    match find_chars(s, p) {
        Some(i) => {
            proof { lemma_find_from(s@, p@, 0); }
            let a = slice_copy(s, 0, i);
            let b = slice_copy(s, i + p.len(), s.len());
            assert(a@ =~= s@.take(i as int));
            assert(b@ =~= s@.skip(i + p@.len()));
            Some((a, b))
        },
        None => None,
    }
}

/// `split_str(s, p)`, computed.
pub fn split_str_chars(s: &[char], p: &[char]) -> (r: Vec<Vec<char>>)
    ensures
        cviews(r@) == split_str(s@, p@),
{
    let mut done: Vec<Vec<char>> = Vec::new();
    if p.len() == 0 {
        let w = slice_copy(s, 0, s.len());
        done.push(w);
        assert(cviews(done@) =~= seq![w@]);
        return done;
    }
    let mut i: usize = 0;
    let mut start: usize = 0;
    while i <= s.len() && p.len() <= s.len() - i
        invariant
            p@.len() > 0,
            start <= i <= s@.len() + 1,
            start <= s@.len(),
            cviews(done@) + split_from(s@, p@, i as int, start as int) == split_str(s@, p@),
        decreases s.len() + 1 - i,
    {
        if matches_at_chars(s, p, i) {
            let w = slice_copy(s, start, i);
            let ghost before = done@;
            done.push(w);
            assert(cviews(done@) =~= cviews(before).push(w@));
            assert(cviews(done@) + split_from(s@, p@, i + p@.len(), i + p@.len()) =~= cviews(before)
                + split_from(s@, p@, i as int, start as int));
            i = i + p.len();
            start = i;
        } else {
            i += 1;
        }
    }
    let w = slice_copy(s, start, s.len());
    let ghost before = done@;
    done.push(w);
    assert(cviews(done@) =~= cviews(before) + seq![w@]);
    done
}

/// `join(parts, sep)`, computed.
pub fn join_chars(parts: &Vec<Vec<char>>, sep: &[char]) -> (r: Vec<char>)
    ensures
        r@ == join(cviews(parts@), sep@),
{
    let mut r: Vec<char> = Vec::new();
    let mut i: usize = 0;
    while i < parts.len()
        invariant
            i <= parts@.len(),
            r@ == join(cviews(parts@).take(i as int), sep@),
        decreases parts.len() - i,
    {
        let ghost t = cviews(parts@).take(i + 1);
        assert(t.drop_last() =~= cviews(parts@).take(i as int));
        assert(t.last() == parts@[i as int]@);
        if i == 0 {
            r = slice_copy(parts[0].as_slice(), 0, parts[0].len());
            assert(r@ =~= parts@[0]@);
        } else {
            let with_sep = concat(r.as_slice(), sep);
            r = concat(with_sep.as_slice(), parts[i].as_slice());
        }
        i += 1;
    }
    assert(cviews(parts@).take(parts@.len() as int) =~= cviews(parts@));
    r
}

// ---------------------------------------------------------------------
// Decimal numbers
// ---------------------------------------------------------------------

/// The ASCII digit for `d < 10`.
pub open spec fn digit(d: nat) -> char {
    if d == 0 {
        '0'
    } else if d == 1 {
        '1'
    } else if d == 2 {
        '2'
    } else if d == 3 {
        '3'
    } else if d == 4 {
        '4'
    } else if d == 5 {
        '5'
    } else if d == 6 {
        '6'
    } else if d == 7 {
        '7'
    } else if d == 8 {
        '8'
    } else {
        '9'
    }
}

/// The decimal representation of `n` (`Display` for unsigned integers).
pub open spec fn dec(n: nat) -> Seq<char>
    decreases n,
{
    if n < 10 {
        seq![digit(n)]
    } else {
        dec(n / 10).push(digit(n % 10))
    }
}

/// `Display` for signed integers.
pub open spec fn dec_signed(i: int) -> Seq<char> {
    if i < 0 {
        seq!['-'] + dec((-i) as nat)
    } else {
        dec(i as nat)
    }
}

fn digit_of(d: u64) -> (c: char)
    requires
        d < 10,
    ensures
        c == digit(d as nat),
{
    if d == 0 {
        '0'
    } else if d == 1 {
        '1'
    } else if d == 2 {
        '2'
    } else if d == 3 {
        '3'
    } else if d == 4 {
        '4'
    } else if d == 5 {
        '5'
    } else if d == 6 {
        '6'
    } else if d == 7 {
        '7'
    } else if d == 8 {
        '8'
    } else {
        '9'
    }
}

/// `dec(n)`, computed.
pub fn dec_chars(n: u64) -> (r: Vec<char>)
    ensures
        r@ == dec(n as nat),
    decreases n,
{
    if n < 10 {
        let mut r: Vec<char> = Vec::new();
        r.push(digit_of(n));
        assert(r@ =~= seq![digit(n as nat)]);
        r
    } else {
        let mut r = dec_chars(n / 10);
        r.push(digit_of(n % 10));
        r
    }
}

/// `dec_signed(i)`, computed.
pub fn dec_signed_chars(i: i64) -> (r: Vec<char>)
    requires
        i > i64::MIN,
    ensures
        r@ == dec_signed(i as int),
{
    if i < 0 {
        let d = dec_chars((-i) as u64);
        let mut minus: Vec<char> = Vec::new();
        minus.push('-');
        assert(minus@ =~= seq!['-']);
        concat(minus.as_slice(), d.as_slice())
    } else {
        dec_chars(i as u64)
    }
}

/// An ASCII decimal digit.
pub open spec fn is_digit(c: char) -> bool {
    '0' <= c <= '9'
}

/// The value of a string of decimal digits.
pub open spec fn digits_value(s: Seq<char>) -> nat
    decreases s.len(),
{
    if s.len() == 0 {
        0
    } else {
        digits_value(s.drop_last()) * 10 + ((s.last() as nat) - 48) as nat
    }
}

/// All characters are ASCII digits.
pub open spec fn all_digits(s: Seq<char>) -> bool {
    forall|i: int| 0 <= i < s.len() ==> is_digit(#[trigger] s[i])
}

/// The number written by `s` as `str::parse` reads an unsigned integer:
/// an optional `+`, then at least one ASCII digit and nothing else.
/// Whether it fits the target type is checked separately.
pub open spec fn parse_unsigned(s: Seq<char>) -> Option<nat> {
    let d = if s.len() > 0 && s[0] == '+' {
        s.drop_first()
    } else {
        s
    };
    if d.len() > 0 && all_digits(d) {
        Some(digits_value(d))
    } else {
        None
    }
}

/// `str::parse::<u64>().ok()`.
pub open spec fn parse_u64(s: Seq<char>) -> Option<u64> {
    match parse_unsigned(s) {
        Some(v) => if v <= u64::MAX {
            Some(v as u64)
        } else {
            None
        },
        None => None,
    }
}

/// `str::parse::<u32>().ok()`.
pub open spec fn parse_u32(s: Seq<char>) -> Option<u32> {
    match parse_unsigned(s) {
        Some(v) => if v <= u32::MAX {
            Some(v as u32)
        } else {
            None
        },
        None => None,
    }
}

proof fn lemma_digits_value_prefix(d: Seq<char>, k: int)
    requires
        0 <= k <= d.len(),
    ensures
        digits_value(d.take(k)) <= digits_value(d),
    decreases d.len() - k,
{
    if k < d.len() {
        lemma_digits_value_prefix(d, k + 1);
        assert(d.take(k + 1).drop_last() =~= d.take(k));
    } else {
        assert(d.take(k) =~= d);
    }
}

/// `parse_u64(s)`, computed.
pub fn parse_u64_chars(s: &[char]) -> (r: Option<u64>)
    ensures
        r == parse_u64(s@),
{
    let n = s.len();
    let start: usize = if n > 0 && s[0] == '+' {
        1
    } else {
        0
    };
    let ghost d = if s@.len() > 0 && s@[0] == '+' {
        s@.drop_first()
    } else {
        s@
    };
    assert(d =~= s@.skip(start as int));
    if start >= n {
        return None;
    }
    let mut k = start;
    while k < n
        invariant
            start <= k <= n == s@.len(),
            d =~= s@.skip(start as int),
            parse_unsigned(s@) == (if d.len() > 0 && all_digits(d) {
                Some(digits_value(d))
            } else {
                None
            }),
            forall|m: int| start <= m < k ==> is_digit(s@[m]),
        decreases n - k,
    {
        if !('0' <= s[k] && s[k] <= '9') {
            assert(!is_digit(d[k - start]));
            assert(!all_digits(d));
            assert(parse_unsigned(s@) is None);
            return None;
        }
        k += 1;
    }
    assert(all_digits(d));
    let mut v: u64 = 0;
    let mut i = start;
    assert(d.take(0) =~= Seq::<char>::empty());
    while i < n
        invariant
            start <= i <= n == s@.len(),
            d =~= s@.skip(start as int),
            parse_unsigned(s@) == Some(digits_value(d)),
            all_digits(d),
            v as nat == digits_value(d.take(i - start)),
        decreases n - i,
    {
        let c = s[i];
        assert(d.take(i + 1 - start).drop_last() =~= d.take(i - start));
        assert(is_digit(d[i - start]));
        let dv = ((c as u32) - 48) as u64;
        if v > (u64::MAX - dv) / 10 {
            proof {
                lemma_digits_value_prefix(d, i + 1 - start);
                assert(digits_value(d.take(i + 1 - start)) == v * 10 + dv);
                assert(v * 10 + dv > u64::MAX);
                assert(parse_unsigned(s@) == Some(digits_value(d)));
            }
            return None;
        }
        v = v * 10 + dv;
        i += 1;
    }
    assert(d.take(n - start) =~= d);
    Some(v)
}

/// `parse_u32(s)`, computed.
pub fn parse_u32_chars(s: &[char]) -> (r: Option<u32>)
    ensures
        r == parse_u32(s@),
{
    match parse_u64_chars(s) {
        Some(v) => if v <= 0xffff_ffff {
            Some(v as u32)
        } else {
            None
        },
        None => None,
    }
}

} // verus!
