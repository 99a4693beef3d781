//! Flatpak updates: reading `flatpak remote-ls --updates` and deciding what
//! an update run amounts to. Listing and updating run unprivileged; for
//! system-wide installations flatpak escalates through polkit on its own.
use vstd::prelude::*;
use crate::text::{
    chars_of, cviews, join, lemma_split_on_len, lines, lines_of, owned, push_all, split_on,
    split_on_chars, string_of, trim, trim_chars, views,
};
use crate::privileged::{command_line, join_strings, line4, result_view, CommandOutcome};

verus! {

broadcast use vstd::string::group_string_axioms;

#[derive(Debug, Clone)]
pub struct FlatpakUpdate {
    pub application: String,
    pub name: String,
    pub version: String,
}

#[derive(Debug, Clone)]
pub struct FlatpakStatus {
    pub available: bool,
    pub updates: Vec<FlatpakUpdate>,
}

/// A pending update: application id, name, version.
pub type FlatpakUpdateView = (Seq<char>, Seq<char>, Seq<char>);

pub open spec fn flatpak_views(v: Seq<FlatpakUpdate>) -> Seq<FlatpakUpdateView> {
    v.map_values(|u: FlatpakUpdate| (u.application@, u.name@, u.version@))
}

/// The `i`-th tab-separated column, trimmed; empty when missing.
pub open spec fn column(cols: Seq<Seq<char>>, i: int) -> Seq<char> {
    if i < cols.len() {
        trim(cols[i])
    } else {
        Seq::empty()
    }
}

/// The update that a line of `remote-ls --columns=application,name,version`
/// describes; none for a blank line or an empty application id.
pub open spec fn remote_ls_line(line: Seq<char>) -> Option<FlatpakUpdateView> {
    let cols = split_on(line, '\t');
    if trim(line).len() == 0 || column(cols, 0).len() == 0 {
        None
    } else {
        Some((column(cols, 0), column(cols, 1), column(cols, 2)))
    }
}

/// The updates that the lines describe, in order.
pub open spec fn remote_ls_updates(ls: Seq<Seq<char>>) -> Seq<FlatpakUpdateView>
    decreases ls.len(),
{
    if ls.len() == 0 {
        Seq::empty()
    } else {
        match remote_ls_line(ls.last()) {
            Some(u) => remote_ls_updates(ls.drop_last()).push(u),
            None => remote_ls_updates(ls.drop_last()),
        }
    }
}

fn column_of(cols: &Vec<Vec<char>>, i: usize) -> (r: Vec<char>)
    ensures
        r@ == column(cviews(cols@), i as int),
{
    if i < cols.len() {
        assert(cviews(cols@)[i as int] == cols@[i as int]@);
        trim_chars(cols[i].as_slice())
    } else {
        Vec::new()
    }
}

/// The pending updates that `flatpak remote-ls --updates` printed.
pub fn parse_remote_ls(stdout: &str) -> (r: Vec<FlatpakUpdate>)
    ensures
        flatpak_views(r@) == remote_ls_updates(lines(stdout@)),
{
    let ls = lines_of(chars_of(stdout).as_slice());
    let ghost lv = cviews(ls@);
    let mut r: Vec<FlatpakUpdate> = Vec::new();
    let mut i: usize = 0;
    assert(lv.take(0) =~= Seq::<Seq<char>>::empty());
    while i < ls.len()
        invariant
            i <= ls@.len(),
            lv == cviews(ls@),
            flatpak_views(r@) == remote_ls_updates(lv.take(i as int)),
        decreases ls.len() - i,
    {
        assert(lv.take(i + 1).drop_last() =~= lv.take(i as int));
        assert(lv.take(i + 1).last() == ls@[i as int]@);
        let line = ls[i].as_slice();
        if trim_chars(line).len() > 0 {
            let cols = split_on_chars(line, '\t');
            let application = column_of(&cols, 0);
            if application.len() > 0 {
                let u = FlatpakUpdate {
                    application: string_of(application.as_slice()),
                    name: string_of(column_of(&cols, 1).as_slice()),
                    version: string_of(column_of(&cols, 2).as_slice()),
                };
                let ghost before = r@;
                r.push(u);
                assert(flatpak_views(r@) =~= flatpak_views(before).push(
                    (u.application@, u.name@, u.version@),
                ));
            }
        }
        i += 1;
    }
    assert(lv.take(ls@.len() as int) =~= lv);
    r
}

/// The command that updates the given application ids (all pending ones when
/// empty) without asking.
pub fn update_argv(applications: &Vec<String>) -> (r: Vec<String>)
    ensures
        views(r@) == seq!["flatpak"@, "update"@, "-y"@, "--noninteractive"@] + views(
            applications@,
        ),
{
    command_line(line4("flatpak", "update", "-y", "--noninteractive"), applications)
}

/// What an update run amounts to: success only on exit status 0; otherwise
/// the error lines, or the last output line when there were none.
pub open spec fn update_outcome(code: Option<i32>, last: Seq<char>, tail: Seq<Seq<char>>) -> Result<
    Seq<char>,
    Seq<char>,
> {
    if code == Some(0i32) {
        Ok("Flatpak apps updated"@)
    } else {
        Err(
            "flatpak update failed: "@ + if tail.len() == 0 {
                last
            } else {
                join(tail, " / "@)
            },
        )
    }
}

pub fn update_result(outcome: CommandOutcome) -> (r: Result<String, String>)
    ensures
        result_view(r) == update_outcome(outcome.code, outcome.last_line@, views(outcome.err_tail@)),
{
    if outcome.code != Some(0i32) {
        let mut d = chars_of("flatpak update failed: ");
        if outcome.err_tail.len() == 0 {
            push_all(&mut d, chars_of(outcome.last_line.as_str()).as_slice());
        } else {
            push_all(&mut d, chars_of(join_strings(&outcome.err_tail, " / ").as_str()).as_slice());
        }
        return Err(string_of(d.as_slice()));
    }
    Ok(owned("Flatpak apps updated"))
}

} // verus!
