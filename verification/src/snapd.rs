//! Snap updates: reading `snap refresh --list` and `snap list --all`, and
//! the command lines that refresh snaps and remove superseded revisions.
//! The refresh itself runs through pkexec so polkit handles authorization.
use vstd::prelude::*;
use crate::text::{
    chars_of, contains, contains_chars, cviews, dec, dec_chars, lines, lines_of, owned, push_all,
    starts_with, starts_with_chars, string_of, trim, trim_chars, views, words, words_of,
};
use crate::privileged::{command_line, line2};

verus! {

broadcast use vstd::string::group_string_axioms;

#[derive(Debug, Clone)]
pub struct SnapUpdate {
    pub name: String,
    pub version: String,
    pub size: String,
    pub publisher: String,
}

#[derive(Debug, Clone)]
pub struct SnapStatus {
    pub available: bool,
    pub updates: Vec<SnapUpdate>,
}

#[derive(Debug, Clone)]
pub struct OldSnap {
    pub name: String,
    pub revision: String,
    pub version: String,
}

/// A pending refresh: name, version, size, publisher.
pub type SnapUpdateView = (Seq<char>, Seq<char>, Seq<char>, Seq<char>);

/// A superseded revision: name, revision, version.
pub type OldSnapView = (Seq<char>, Seq<char>, Seq<char>);

pub open spec fn update_views(v: Seq<SnapUpdate>) -> Seq<SnapUpdateView> {
    v.map_values(|u: SnapUpdate| (u.name@, u.version@, u.size@, u.publisher@))
}

pub open spec fn old_views(v: Seq<OldSnap>) -> Seq<OldSnapView> {
    v.map_values(|o: OldSnap| (o.name@, o.revision@, o.version@))
}

/// The marks that snap puts after a verified publisher's name: ✓, ✪, or `*`
/// in the ASCII fallback.
pub open spec fn is_publisher_mark(c: char) -> bool {
    c == '✓' || c == '✪' || c == '*'
}

/// The publisher's name without its trailing marks.
pub open spec fn publisher_name(s: Seq<char>) -> Seq<char>
    decreases s.len(),
{
    if s.len() > 0 && is_publisher_mark(s.last()) {
        publisher_name(s.drop_last())
    } else {
        s
    }
}

/// The update that a line of `snap refresh --list` describes (columns: Name
/// Version Rev Size Publisher Notes); none for the header, a blank line, or
/// fewer than five columns.
pub open spec fn refresh_line(line: Seq<char>) -> Option<SnapUpdateView> {
    let cols = words(line);
    if starts_with(line, "Name"@) || trim(line).len() == 0 || cols.len() < 5 {
        None
    } else {
        Some((cols[0], cols[1], cols[3], publisher_name(cols[4])))
    }
}

/// The updates that the lines describe, in order.
pub open spec fn refresh_updates(ls: Seq<Seq<char>>) -> Seq<SnapUpdateView>
    decreases ls.len(),
{
    if ls.len() == 0 {
        Seq::empty()
    } else {
        match refresh_line(ls.last()) {
            Some(u) => refresh_updates(ls.drop_last()).push(u),
            None => refresh_updates(ls.drop_last()),
        }
    }
}

fn publisher_of(s: &[char]) -> (r: Vec<char>)
    ensures
        r@ == publisher_name(s@),
{
    let mut k = s.len();
    assert(s@.take(k as int) =~= s@);
    while k > 0 && (s[k - 1] == '✓' || s[k - 1] == '✪' || s[k - 1] == '*')
        invariant
            k <= s@.len(),
            publisher_name(s@) == publisher_name(s@.take(k as int)),
        decreases k,
    {
        assert(s@.take(k as int).drop_last() =~= s@.take(k - 1));
        k -= 1;
    }
    crate::text::slice_copy(s, 0, k)
}

/// The pending refreshes that `snap refresh --list` printed.
pub fn parse_refresh_list(stdout: &str) -> (r: Vec<SnapUpdate>)
    ensures
        update_views(r@) == refresh_updates(lines(stdout@)),
{
    let ls = lines_of(chars_of(stdout).as_slice());
    let ghost lv = cviews(ls@);
    let header = chars_of("Name");
    let mut r: Vec<SnapUpdate> = Vec::new();
    let mut i: usize = 0;
    assert(lv.take(0) =~= Seq::<Seq<char>>::empty());
    while i < ls.len()
        invariant
            i <= ls@.len(),
            lv == cviews(ls@),
            header@ == "Name"@,
            update_views(r@) == refresh_updates(lv.take(i as int)),
        decreases ls.len() - i,
    {
        assert(lv.take(i + 1).drop_last() =~= lv.take(i as int));
        assert(lv.take(i + 1).last() == ls@[i as int]@);
        let line = ls[i].as_slice();
        if !starts_with_chars(line, header.as_slice()) && trim_chars(line).len() > 0 {
            let cols = words_of(line);
            if cols.len() >= 5 {
                let ghost cv = cviews(cols@);
                assert(cv[0] == cols@[0]@ && cv[1] == cols@[1]@ && cv[3] == cols@[3]@ && cv[4]
                    == cols@[4]@);
                let u = SnapUpdate {
                    name: string_of(cols[0].as_slice()),
                    version: string_of(cols[1].as_slice()),
                    size: string_of(cols[3].as_slice()),
                    publisher: string_of(publisher_of(cols[4].as_slice()).as_slice()),
                };
                let ghost before = r@;
                r.push(u);
                assert(update_views(r@) =~= update_views(before).push(
                    (u.name@, u.version@, u.size@, u.publisher@),
                ));
            }
        }
        i += 1;
    }
    assert(lv.take(ls@.len() as int) =~= lv);
    r
}

/// The superseded revision that a line of `snap list --all` describes
/// (columns: Name Version Rev Tracking Publisher Notes): one whose notes say
/// "disabled".
pub open spec fn list_all_line(line: Seq<char>) -> Option<OldSnapView> {
    let cols = words(line);
    if cols.len() >= 6 && contains(cols[5], "disabled"@) {
        Some((cols[0], cols[2], cols[1]))
    } else {
        None
    }
}

/// The superseded revisions that the lines describe, in order.
pub open spec fn old_revisions_of(ls: Seq<Seq<char>>) -> Seq<OldSnapView>
    decreases ls.len(),
{
    if ls.len() == 0 {
        Seq::empty()
    } else {
        match list_all_line(ls.last()) {
            Some(o) => old_revisions_of(ls.drop_last()).push(o),
            None => old_revisions_of(ls.drop_last()),
        }
    }
}

/// The superseded revisions still on disk that `snap list --all` printed:
/// snapd keeps the previous revisions of every snap, marked "disabled".
pub fn parse_list_all(stdout: &str) -> (r: Vec<OldSnap>)
    ensures
        old_views(r@) == old_revisions_of(lines(stdout@)),
{
    let ls = lines_of(chars_of(stdout).as_slice());
    let ghost lv = cviews(ls@);
    let disabled = chars_of("disabled");
    let mut r: Vec<OldSnap> = Vec::new();
    let mut i: usize = 0;
    assert(lv.take(0) =~= Seq::<Seq<char>>::empty());
    while i < ls.len()
        invariant
            i <= ls@.len(),
            lv == cviews(ls@),
            disabled@ == "disabled"@,
            old_views(r@) == old_revisions_of(lv.take(i as int)),
        decreases ls.len() - i,
    {
        assert(lv.take(i + 1).drop_last() =~= lv.take(i as int));
        assert(lv.take(i + 1).last() == ls@[i as int]@);
        let cols = words_of(ls[i].as_slice());
        if cols.len() >= 6 {
            let ghost cv = cviews(cols@);
            assert(cv[0] == cols@[0]@ && cv[1] == cols@[1]@ && cv[2] == cols@[2]@ && cv[5]
                == cols@[5]@);
            if contains_chars(cols[5].as_slice(), disabled.as_slice()) {
                let o = OldSnap {
                    name: string_of(cols[0].as_slice()),
                    version: string_of(cols[1].as_slice()),
                    revision: string_of(cols[2].as_slice()),
                };
                let ghost before = r@;
                r.push(o);
                assert(old_views(r@) =~= old_views(before).push((o.name@, o.revision@, o.version@)));
            }
        }
        i += 1;
    }
    assert(lv.take(ls@.len() as int) =~= lv);
    r
}

/// The command that refreshes the named snaps (all pending ones when empty).
pub fn refresh_argv(names: &Vec<String>) -> (r: Vec<String>)
    ensures
        views(r@) == seq!["snap"@, "refresh"@] + views(names@),
{
    command_line(line2("snap", "refresh"), names)
}

/// The progress line and the command line that remove one superseded revision.
pub open spec fn removal_step_view(old: OldSnapView, index: nat, total: nat) -> (
    Seq<char>,
    Seq<Seq<char>>,
) {
    (
        "Removing "@ + old.0 + " revision "@ + old.1 + " ("@ + dec(index + 1) + "/"@ + dec(total)
            + ")"@,
        seq!["snap"@, "remove"@, old.0, "--revision"@, old.1],
    )
}

/// The `index`-th of `total` removals, counted from 0.
pub fn removal_step(old: &OldSnap, index: usize, total: usize) -> (r: (String, Vec<String>))
    requires
        index < total,
    ensures
        (r.0@, views(r.1@)) == removal_step_view(
            (old.name@, old.revision@, old.version@),
            index as nat,
            total as nat,
        ),
{
    let mut d = chars_of("Removing ");
    push_all(&mut d, chars_of(old.name.as_str()).as_slice());
    push_all(&mut d, chars_of(" revision ").as_slice());
    push_all(&mut d, chars_of(old.revision.as_str()).as_slice());
    push_all(&mut d, chars_of(" (").as_slice());
    push_all(&mut d, dec_chars((index + 1) as u64).as_slice());
    push_all(&mut d, chars_of("/").as_slice());
    push_all(&mut d, dec_chars(total as u64).as_slice());
    push_all(&mut d, chars_of(")").as_slice());
    let mut argv: Vec<String> = Vec::new();
    argv.push(owned("snap"));
    argv.push(owned("remove"));
    argv.push(old.name.clone());
    argv.push(owned("--revision"));
    argv.push(old.revision.clone());
    assert(views(argv@) =~= seq!["snap"@, "remove"@, old.name@, "--revision"@, old.revision@]);
    (string_of(d.as_slice()), argv)
}

/// What removing `total` superseded revisions reports once all succeeded.
pub open spec fn removal_summary_view(total: nat) -> Seq<char> {
    if total == 0 {
        "No old snap revisions to remove"@
    } else {
        "Removed "@ + dec(total) + " old snap revision(s)"@
    }
}

pub fn removal_summary(total: usize) -> (r: String)
    ensures
        r@ == removal_summary_view(total as nat),
{
    if total == 0 {
        owned("No old snap revisions to remove")
    } else {
        let mut d = chars_of("Removed ");
        push_all(&mut d, dec_chars(total as u64).as_slice());
        push_all(&mut d, chars_of(" old snap revision(s)").as_slice());
        string_of(d.as_slice())
    }
}

} // verus!
