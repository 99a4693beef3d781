//! What this system provides, so the interface can adapt: which package
//! managers exist, whether polkit escalation is possible, and whether it
//! is a Debian-family distribution at all. Probing is left to the caller;
//! this module reads `/etc/os-release`.
use vstd::prelude::*;
use crate::text::{
    chars_of, contains, contains_chars, lemma_find_from, matches_at, find, cviews, lines, lines_of, push_all, same, split_once,
    split_once_chars, string_of, trim, trim_chars, trim_end_char, trim_end_char_chars,
    trim_start_char, trim_start_char_chars,
};

verus! {

broadcast use vstd::string::group_string_axioms;

#[derive(Debug, Clone)]
pub struct SystemInfo {
    /// PRETTY_NAME from /etc/os-release, e.g. "Ubuntu 26.04 LTS".
    pub os_name: String,
    /// ID or ID_LIKE mentions debian/ubuntu: apt/dpkg tooling applies.
    pub debian_based: bool,
    /// org.freedesktop.PackageKit is reachable or activatable on the system bus.
    pub packagekit: bool,
    pub pkexec: bool,
    pub snapd: bool,
    pub flatpak: bool,
}

/// What `str::to_lowercase` returns for `s` (Unicode lowercase mapping,
/// which depends on the context of some characters).
pub uninterp spec fn lowercase(s: Seq<char>) -> Seq<char>;

/// `str::to_lowercase`. Its result is named: the contract claims only that
/// it depends on the characters of `s` alone.
#[verifier::external_body]
fn to_lowercase(s: &str) -> (r: String)
    ensures
        r@ == lowercase(s@),
{
    s.to_lowercase()
}

/// `str::trim_matches(c)` for a single character: drops every `c` at both ends.
pub open spec fn trim_char(s: Seq<char>, c: char) -> Seq<char> {
    trim_end_char(trim_start_char(s, c), c)
}

/// The pretty name and the family text (each `ID` and `ID_LIKE` value,
/// lowercased, after a space) after one line of os-release.
pub open spec fn os_release_step(st: (Seq<char>, Seq<char>), line: Seq<char>) -> (
    Seq<char>,
    Seq<char>,
) {
    match split_once(line, "="@) {
        None => st,
        Some((key, raw)) => {
            let value = trim_char(trim(raw), '"');
            if key == "PRETTY_NAME"@ {
                (value, st.1)
            } else if key == "ID"@ || key == "ID_LIKE"@ {
                (st.0, st.1 + seq![' '] + lowercase(value))
            } else {
                st
            }
        },
    }
}

/// The state after reading the lines, starting from "Unknown Linux" and no family.
pub open spec fn os_release_scan(ls: Seq<Seq<char>>) -> (Seq<char>, Seq<char>)
    decreases ls.len(),
{
    if ls.len() == 0 {
        ("Unknown Linux"@, Seq::empty())
    } else {
        os_release_step(os_release_scan(ls.drop_last()), ls.last())
    }
}

/// The family text names Debian or Ubuntu.
pub open spec fn debian_family(family: Seq<char>) -> bool {
    contains(family, "debian"@) || contains(family, "ubuntu"@)
}

/// Whether the family text (the lowercased `ID` and `ID_LIKE` values)
/// names Debian or Ubuntu.
pub fn is_debian_family(family: &str) -> (b: bool)
    ensures
        b == debian_family(family@),
{
    let f = chars_of(family);
    contains_chars(f.as_slice(), chars_of("debian").as_slice()) || contains_chars(
        f.as_slice(),
        chars_of("ubuntu").as_slice(),
    )
}

/// The pretty name of the system, and whether it is Debian-based, from the
/// text of os-release.
pub fn parse_os_release(content: &str) -> (r: (String, bool))
    ensures
        r.0@ == os_release_scan(lines(content@)).0,
        r.1 == debian_family(os_release_scan(lines(content@)).1),
{
    let ls = lines_of(chars_of(content).as_slice());
    let ghost lv = cviews(ls@);
    let eq = chars_of("=");
    let mut pretty = chars_of("Unknown Linux");
    let mut family: Vec<char> = Vec::new();
    let mut i: usize = 0;
    assert(lv.take(0) =~= Seq::<Seq<char>>::empty());
    assert(family@ =~= Seq::<char>::empty());
    while i < ls.len()
        invariant
            i <= ls@.len(),
            lv == cviews(ls@),
            eq@ == "="@,
            os_release_scan(lv.take(i as int)) == (pretty@, family@),
        decreases ls.len() - i,
    {
        assert(lv.take(i + 1).drop_last() =~= lv.take(i as int));
        assert(lv.take(i + 1).last() == ls@[i as int]@);
        match split_once_chars(ls[i].as_slice(), eq.as_slice()) {
            None => {},
            Some((key, raw)) => {
                let value = trim_end_char_chars(
                    trim_start_char_chars(trim_chars(raw.as_slice()).as_slice(), '"').as_slice(),
                    '"',
                );
                if same(key.as_slice(), chars_of("PRETTY_NAME").as_slice()) {
                    pretty = value;
                } else if same(key.as_slice(), chars_of("ID").as_slice()) || same(
                    key.as_slice(),
                    chars_of("ID_LIKE").as_slice(),
                ) {
                    family.push(' ');
                    let lower = to_lowercase(string_of(value.as_slice()).as_str());
                    push_all(&mut family, chars_of(lower.as_str()).as_slice());
                }
            },
        }
        i += 1;
    }
    assert(lv.take(ls@.len() as int) =~= lv);
    let family_text = string_of(family.as_slice());
    (string_of(pretty.as_slice()), is_debian_family(family_text.as_str()))
}

proof fn lemma_contains_in_join(x: Seq<char>, y: Seq<char>, p: Seq<char>)
    ensures
        contains(x, p) ==> contains(x + y, p),
        contains(y, p) ==> contains(x + y, p),
{
    let s = x + y;
    lemma_find_from(s, p, 0);
    if contains(x, p) {
        lemma_find_from(x, p, 0);
        let i = find(x, p)->0;
        assert(s.subrange(i, i + p.len()) =~= x.subrange(i, i + p.len()));
        assert(matches_at(s, p, i));
    }
    if contains(y, p) {
        lemma_find_from(y, p, 0);
        let i = find(y, p)->0;
        assert(s.subrange(x.len() + i, x.len() + i + p.len()) =~= y.subrange(i, i + p.len()));
        assert(matches_at(s, p, x.len() + i));
    }
}

/// Once the family text names Debian or Ubuntu, later lines keep it so.
proof fn lemma_family_stays(ls: Seq<Seq<char>>, m: int)
    requires
        0 <= m <= ls.len(),
        debian_family(os_release_scan(ls.take(m)).1),
    ensures
        debian_family(os_release_scan(ls).1),
    decreases ls.len() - m,
{
    if m < ls.len() {
        let before = os_release_scan(ls.take(m)).1;
        assert(ls.take(m + 1).drop_last() =~= ls.take(m));
        lemma_contains_in_join(before, seq![' '], "debian"@);
        lemma_contains_in_join(before, seq![' '], "ubuntu"@);
        match split_once(ls[m], "="@) {
            Some((key, raw)) => {
                let v = lowercase(trim_char(trim(raw), '"'));
                lemma_contains_in_join(before + seq![' '], v, "debian"@);
                lemma_contains_in_join(before + seq![' '], v, "ubuntu"@);
            },
            None => {},
        }
        lemma_family_stays(ls, m + 1);
    } else {
        assert(ls.take(m) =~= ls);
    }
}

/// A line `ID=…` or `ID_LIKE=…` of os-release whose value (trimmed, without
/// quotes), lowercased, contains "debian" or "ubuntu" makes the system
/// Debian-based, whatever the other lines say.
pub proof fn debian_id_makes_debian_based(content: Seq<char>, k: int)
    requires
        0 <= k < lines(content).len(),
        split_once(lines(content)[k], "="@) matches Some((key, raw)) && (key == "ID"@ || key
            == "ID_LIKE"@) && (contains(lowercase(trim_char(trim(raw), '"')), "debian"@) || contains(
            lowercase(trim_char(trim(raw), '"')),
            "ubuntu"@,
        )),
    ensures
        debian_family(os_release_scan(lines(content)).1),
{
    let ls = lines(content);
    assert(ls.take(k + 1).drop_last() =~= ls.take(k));
    assert(ls.take(k + 1).last() == ls[k]);
    let before = os_release_scan(ls.take(k)).1;
    match split_once(ls[k], "="@) {
        Some((key, raw)) => {
            let v = lowercase(trim_char(trim(raw), '"'));
            if key == "PRETTY_NAME"@ {
                reveal_strlit("PRETTY_NAME");
                reveal_strlit("ID");
                reveal_strlit("ID_LIKE");
                assert("PRETTY_NAME"@.len() == 11);
                assert("ID"@.len() == 2);
                assert("ID_LIKE"@.len() == 7);
            }
            assert(os_release_scan(ls.take(k + 1)).1 == before + seq![' '] + v);
            lemma_contains_in_join(before + seq![' '], v, "debian"@);
            lemma_contains_in_join(before + seq![' '], v, "ubuntu"@);
        },
        None => {},
    }
    lemma_family_stays(ls, k + 1);
}

} // verus!
