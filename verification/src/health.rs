//! System health checks: the common broken states that make Debian
//! systems misbehave, each mapped to a guided repair where one exists.
//! The programs and files are read by the caller; this module decides,
//! from what they gave back, the state and wording of each check.
use vstd::prelude::*;
use crate::privileged::action_line;
use crate::snapd::OldSnap;
use crate::text::{
    all_digits, chars_of, contains, contains_chars, cviews, dec, dec_chars, ends_with,
    ends_with_chars, is_digit, join, join_chars, lines, lines_of, owned, parse_u32,
    parse_u32_chars, parse_u64, parse_u64_chars, push_all, slice_copy, starts_with,
    starts_with_chars, string_of, trim, trim_chars, trim_end_char, trim_end_char_chars,
    trim_start, trim_start_chars, words, words_of, split_str, split_str_chars, split_on,
    split_on_chars, lemma_split_on_len, find, find_chars, lemma_find_from, strings_of, views,
};

verus! {

broadcast use vstd::string::group_string_axioms;

#[derive(Debug, Clone)]
pub struct Repair {
    pub id: String,
    pub label: String,
}

#[derive(Debug, Clone)]
pub struct Check {
    pub id: String,
    pub title: String,
    /// "ok" | "warn" | "bad" | "info" | "unknown"
    pub status: String,
    pub detail: String,
    pub repair: Option<Repair>,
}

/// What a check holds, as character sequences; a repair is `(id, label)`.
pub struct CheckView {
    pub id: Seq<char>,
    pub title: Seq<char>,
    pub status: Seq<char>,
    pub detail: Seq<char>,
    pub repair: Option<(Seq<char>, Seq<char>)>,
}

pub open spec fn repair_view(r: Option<Repair>) -> Option<(Seq<char>, Seq<char>)> {
    match r {
        Some(r) => Some((r.id@, r.label@)),
        None => None,
    }
}

impl View for Check {
    type V = CheckView;

    open spec fn view(&self) -> CheckView {
        CheckView {
            id: self.id@,
            title: self.title@,
            status: self.status@,
            detail: self.detail@,
            repair: repair_view(self.repair),
        }
    }
}

/// The output of a program that ran to its end.
#[derive(Debug, Clone)]
pub struct ProgramOutput {
    pub success: bool,
    pub stdout: String,
    pub stderr: String,
}

/// What a program's output holds, as character sequences.
pub struct OutputView {
    pub success: bool,
    pub stdout: Seq<char>,
    pub stderr: Seq<char>,
}

impl View for ProgramOutput {
    type V = OutputView;

    open spec fn view(&self) -> OutputView {
        OutputView { success: self.success, stdout: self.stdout@, stderr: self.stderr@ }
    }
}

/// A program's output, or the error that kept it from running.
pub open spec fn run_view(r: Result<ProgramOutput, String>) -> Result<OutputView, Seq<char>> {
    match r {
        Ok(o) => Ok(o@),
        Err(e) => Err(e@),
    }
}

pub open spec fn check_of(
    id: Seq<char>,
    title: Seq<char>,
    status: Seq<char>,
    detail: Seq<char>,
    repair: Option<(Seq<char>, Seq<char>)>,
) -> CheckView {
    CheckView { id, title, status, detail, repair }
}

impl Check {
    pub fn new(id: &str, title: &str, status: &str, detail: String, repair: Option<Repair>) -> (c:
        Self)
        ensures
            c@ == check_of(id@, title@, status@, detail@, repair_view(repair)),
    {
        Check { id: owned(id), title: owned(title), status: owned(status), detail, repair }
    }
}

pub fn repair(id: &str, label: &str) -> (r: Option<Repair>)
    ensures
        repair_view(r) == Some((id@, label@)),
{
    Some(Repair { id: owned(id), label: owned(label) })
}

/// The repair that finishes an interrupted dpkg run.
pub open spec fn configure_dpkg() -> Option<(Seq<char>, Seq<char>)> {
    Some(("configure-dpkg"@, "Finish pending configuration"@))
}

/// The repair that lets apt fix broken dependencies.
pub open spec fn fix_broken() -> Option<(Seq<char>, Seq<char>)> {
    Some(("fix-broken"@, "Fix broken dependencies"@))
}

/// The repair that removes unused packages and old kernels.
pub open spec fn autoremove() -> Option<(Seq<char>, Seq<char>)> {
    Some(("autoremove"@, "Remove unused packages & old kernels"@))
}

// ---- Interrupted dpkg run ----

/// How many of the names are made of ASCII digits only (dpkg's journal entries).
pub open spec fn journal_count(names: Seq<Seq<char>>) -> nat
    decreases names.len(),
{
    if names.len() == 0 {
        0
    } else {
        journal_count(names.drop_last()) + if all_digits(names.last()) {
            1nat
        } else {
            0nat
        }
    }
}

/// The check of dpkg's journal directory, from the names of its entries or
/// the error that reading it gave.
pub open spec fn dpkg_interrupted_view(names: Result<Seq<Seq<char>>, Seq<char>>) -> CheckView {
    let id = "dpkg-interrupted"@;
    let title = "Interrupted package operation"@;
    match names {
        Ok(names) => if journal_count(names) > 0 {
            check_of(
                id,
                title,
                "bad"@,
                "dpkg was interrupted mid-operation ("@ + dec(journal_count(names))
                    + " pending journal entries). Packages may be half-installed until it finishes."@,
                configure_dpkg(),
            )
        } else {
            check_of(id, title, "ok"@, "No interrupted dpkg operation."@, None)
        },
        Err(e) => check_of(id, title, "unknown"@, "Could not read dpkg state: "@ + e, None),
    }
}

fn all_digits_chars(s: &[char]) -> (b: bool)
    ensures
        b == all_digits(s@),
{
    let mut i: usize = 0;
    while i < s.len()
        invariant
            i <= s@.len(),
            forall|k: int| 0 <= k < i ==> is_digit(s@[k]),
        decreases s.len() - i,
    {
        if !('0' <= s[i] && s[i] <= '9') {
            assert(!is_digit(s@[i as int]));
            return false;
        }
        i += 1;
    }
    true
}

fn journal_count_of(names: &Vec<String>) -> (n: usize)
    ensures
        n == journal_count(crate::text::views(names@)),
{
    let ghost vs = crate::text::views(names@);
    let mut n: usize = 0;
    let mut i: usize = 0;
    assert(vs.take(0) =~= Seq::<Seq<char>>::empty());
    while i < names.len()
        invariant
            i <= names@.len(),
            vs == crate::text::views(names@),
            n == journal_count(vs.take(i as int)),
            n <= i,
        decreases names.len() - i,
    {
        assert(vs.take(i + 1).drop_last() =~= vs.take(i as int));
        let cs = chars_of(names[i].as_str());
        if all_digits_chars(cs.as_slice()) {
            n += 1;
        }
        i += 1;
    }
    assert(vs.take(names@.len() as int) =~= vs);
    n
}

/// dpkg keeps journal files in its `updates` directory while it works;
/// leftover numeric entries mean an install or upgrade was interrupted.
pub fn dpkg_interrupted_check(names: Result<Vec<String>, String>) -> (c: Check)
    ensures
        c@ == dpkg_interrupted_view(
            match names {
                Ok(v) => Ok(crate::text::views(v@)),
                Err(e) => Err(e@),
            },
        ),
{
    let id = "dpkg-interrupted";
    let title = "Interrupted package operation";
    match names {
        Ok(names) => {
            let pending = journal_count_of(&names);
            if pending > 0 {
                let mut d = chars_of("dpkg was interrupted mid-operation (");
                push_all(&mut d, dec_chars(pending as u64).as_slice());
                push_all(
                    &mut d,
                    chars_of(
                        " pending journal entries). Packages may be half-installed until it finishes.",
                    ).as_slice(),
                );
                Check::new(
                    id,
                    title,
                    "bad",
                    string_of(d.as_slice()),
                    repair("configure-dpkg", "Finish pending configuration"),
                )
            } else {
                Check::new(id, title, "ok", owned("No interrupted dpkg operation."), None)
            }
        },
        Err(e) => {
            let mut d = chars_of("Could not read dpkg state: ");
            push_all(&mut d, chars_of(e.as_str()).as_slice());
            Check::new(id, title, "unknown", string_of(d.as_slice()), None)
        },
    }
}

// ---- dpkg --audit ----

/// The first twelve lines of a report, joined, with "\n…" when it has more.
pub open spec fn report_excerpt(report: Seq<char>) -> Seq<char> {
    let ls = lines(report);
    join(ls.take(if ls.len() < 12 { ls.len() as int } else { 12 }), "\n"@) + if ls.len() > 12 {
        "\n…"@
    } else {
        Seq::empty()
    }
}

/// The check of `dpkg --audit`: its trimmed report, when not empty, is the detail.
pub open spec fn dpkg_audit_view(run: Result<OutputView, Seq<char>>) -> CheckView {
    let id = "dpkg-audit"@;
    let title = "Package database consistency"@;
    match run {
        Ok(o) => if trim(o.stdout).len() == 0 {
            check_of(
                id,
                title,
                "ok"@,
                "dpkg reports no half-installed or misconfigured packages."@,
                None,
            )
        } else {
            check_of(id, title, "bad"@, report_excerpt(trim(o.stdout)), configure_dpkg())
        },
        Err(e) => check_of(id, title, "unknown"@, "dpkg --audit failed: "@ + e, None),
    }
}

fn labelled_string(label: &str, e: &str) -> (r: String)
    ensures
        r@ == label@ + e@,
{
    let mut d = chars_of(label);
    push_all(&mut d, chars_of(e).as_slice());
    string_of(d.as_slice())
}

fn excerpt(report: &[char]) -> (r: Vec<char>)
    ensures
        r@ == report_excerpt(report@),
{
    let ls = lines_of(report);
    let ghost lv = lines(report@);
    let n: usize = if ls.len() < 12 {
        ls.len()
    } else {
        12
    };
    let mut first: Vec<Vec<char>> = Vec::new();
    let mut i: usize = 0;
    while i < n
        invariant
            n <= ls@.len(),
            i <= n,
            cviews(ls@) == lv,
            cviews(first@) == lv.take(i as int),
        decreases n - i,
    {
        let ghost before = first@;
        let w = crate::text::slice_copy(ls[i].as_slice(), 0, ls[i].len());
        assert(w@ =~= ls@[i as int]@);
        first.push(w);
        assert(cviews(first@) =~= cviews(before).push(w@));
        assert(cviews(first@) =~= lv.take(i + 1));
        i += 1;
    }
    let nl = chars_of("\n");
    let mut r = join_chars(&first, nl.as_slice());
    if ls.len() > 12 {
        push_all(&mut r, chars_of("\n…").as_slice());
    } else {
        assert(r@ =~= r@ + Seq::<char>::empty());
    }
    r
}

pub fn dpkg_audit_check(run: Result<ProgramOutput, String>) -> (c: Check)
    ensures
        c@ == dpkg_audit_view(run_view(run)),
{
    let id = "dpkg-audit";
    let title = "Package database consistency";
    match run {
        Ok(out) => {
            let report = trim_chars(chars_of(out.stdout.as_str()).as_slice());
            if report.len() == 0 {
                Check::new(
                    id,
                    title,
                    "ok",
                    owned("dpkg reports no half-installed or misconfigured packages."),
                    None,
                )
            } else {
                let d = excerpt(report.as_slice());
                Check::new(
                    id,
                    title,
                    "bad",
                    string_of(d.as_slice()),
                    repair("configure-dpkg", "Finish pending configuration"),
                )
            }
        },
        Err(e) => Check::new(
            id,
            title,
            "unknown",
            labelled_string("dpkg --audit failed: ", e.as_str()),
            None,
        ),
    }
}

// ---- Broken dependencies ----

/// The first line that holds both `a` and `b`.
pub open spec fn first_with_both(ls: Seq<Seq<char>>, a: Seq<char>, b: Seq<char>) -> Option<
    Seq<char>,
>
    decreases ls.len(),
{
    if ls.len() == 0 {
        None
    } else if contains(ls[0], a) && contains(ls[0], b) {
        Some(ls[0])
    } else {
        first_with_both(ls.drop_first(), a, b)
    }
}

/// apt's summary line says nothing would change.
pub open spec fn deps_clean(stdout: Seq<char>) -> bool {
    match first_with_both(lines(stdout), "upgraded"@, "newly installed"@) {
        Some(l) => starts_with(trim_start(l), "0 upgraded, 0 newly installed, 0 to remove"@),
        None => false,
    }
}

/// The last line of the trimmed error output, or a fixed text when there is none.
pub open spec fn last_error_line(stderr: Seq<char>) -> Seq<char> {
    let ls = lines(trim(stderr));
    if ls.len() > 0 {
        ls.last()
    } else {
        "apt reported an error"@
    }
}

/// The check of `apt-get -s -f install`, a simulated fix-broken run: when it
/// would change anything, dependencies are currently broken.
pub open spec fn broken_deps_view(run: Result<OutputView, Seq<char>>) -> CheckView {
    let id = "broken-deps"@;
    let title = "Broken dependencies"@;
    match run {
        Ok(o) => if o.success {
            if deps_clean(o.stdout) {
                check_of(id, title, "ok"@, "All package dependencies are satisfied."@, None)
            } else {
                check_of(
                    id,
                    title,
                    "bad"@,
                    "apt wants to add or remove packages to repair dependencies."@,
                    fix_broken(),
                )
            }
        } else {
            check_of(id, title, "bad"@, last_error_line(o.stderr), fix_broken())
        },
        Err(e) => check_of(id, title, "unknown"@, "apt-get check failed: "@ + e, None),
    }
}

fn first_with_both_of(ls: &Vec<Vec<char>>, a: &[char], b: &[char]) -> (r: Option<usize>)
    ensures
        match r {
            Some(i) => i < ls@.len() && first_with_both(cviews(ls@), a@, b@) == Some(ls@[i as int]@),
            None => first_with_both(cviews(ls@), a@, b@) is None,
        },
{
    let ghost all = cviews(ls@);
    let mut i: usize = 0;
    assert(all.skip(0) =~= all);
    while i < ls.len()
        invariant
            i <= ls@.len(),
            all == cviews(ls@),
            first_with_both(all, a@, b@) == first_with_both(all.skip(i as int), a@, b@),
        decreases ls.len() - i,
    {
        assert(all.skip(i as int)[0] == ls@[i as int]@);
        if contains_chars(ls[i].as_slice(), a) && contains_chars(ls[i].as_slice(), b) {
            return Some(i);
        }
        assert(all.skip(i as int).drop_first() =~= all.skip(i + 1));
        i += 1;
    }
    None
}

fn deps_clean_of(stdout: &str) -> (b: bool)
    ensures
        b == deps_clean(stdout@),
{
    let ls = lines_of(chars_of(stdout).as_slice());
    match first_with_both_of(&ls, chars_of("upgraded").as_slice(), chars_of("newly installed").as_slice()) {
        Some(i) => {
            let t = trim_start_chars(ls[i].as_slice());
            starts_with_chars(t.as_slice(), chars_of("0 upgraded, 0 newly installed, 0 to remove").as_slice())
        },
        None => false,
    }
}

fn last_error_line_of(stderr: &str) -> (r: String)
    ensures
        r@ == last_error_line(stderr@),
{
    let ls = lines_of(trim_chars(chars_of(stderr).as_slice()).as_slice());
    if ls.len() > 0 {
        let ghost lv = cviews(ls@);
        assert(lv.last() == ls@[ls@.len() - 1]@);
        string_of(ls[ls.len() - 1].as_slice())
    } else {
        owned("apt reported an error")
    }
}

pub fn broken_deps_check(run: Result<ProgramOutput, String>) -> (c: Check)
    ensures
        c@ == broken_deps_view(run_view(run)),
{
    let id = "broken-deps";
    let title = "Broken dependencies";
    match run {
        Ok(out) => if out.success {
            if deps_clean_of(out.stdout.as_str()) {
                Check::new(id, title, "ok", owned("All package dependencies are satisfied."), None)
            } else {
                Check::new(
                    id,
                    title,
                    "bad",
                    owned("apt wants to add or remove packages to repair dependencies."),
                    repair("fix-broken", "Fix broken dependencies"),
                )
            }
        } else {
            Check::new(
                id,
                title,
                "bad",
                last_error_line_of(out.stderr.as_str()),
                repair("fix-broken", "Fix broken dependencies"),
            )
        },
        Err(e) => Check::new(
            id,
            title,
            "unknown",
            labelled_string("apt-get check failed: ", e.as_str()),
            None,
        ),
    }
}

// ---- Held packages ----

/// The lines that hold more than whitespace, untrimmed.
pub open spec fn non_blank(ls: Seq<Seq<char>>) -> Seq<Seq<char>>
    decreases ls.len(),
{
    if ls.len() == 0 {
        Seq::empty()
    } else if trim(ls.last()).len() == 0 {
        non_blank(ls.drop_last())
    } else {
        non_blank(ls.drop_last()).push(ls.last())
    }
}

fn non_blank_lines(s: &str) -> (r: Vec<Vec<char>>)
    ensures
        cviews(r@) == non_blank(lines(s@)),
{
    let ls = lines_of(chars_of(s).as_slice());
    let ghost lv = cviews(ls@);
    let mut r: Vec<Vec<char>> = Vec::new();
    let mut i: usize = 0;
    assert(lv.take(0) =~= Seq::<Seq<char>>::empty());
    while i < ls.len()
        invariant
            i <= ls@.len(),
            lv == cviews(ls@),
            cviews(r@) == non_blank(lv.take(i as int)),
        decreases ls.len() - i,
    {
        assert(lv.take(i + 1).drop_last() =~= lv.take(i as int));
        assert(lv.take(i + 1).last() == ls@[i as int]@);
        if trim_chars(ls[i].as_slice()).len() > 0 {
            let w = slice_copy(ls[i].as_slice(), 0, ls[i].len());
            assert(w@ =~= ls@[i as int]@);
            let ghost before = r@;
            r.push(w);
            assert(cviews(r@) =~= cviews(before).push(w@));
        }
        i += 1;
    }
    assert(lv.take(ls@.len() as int) =~= lv);
    r
}

/// The check of `apt-mark showhold`: any held package is reported by name.
pub open spec fn held_packages_view(run: Result<OutputView, Seq<char>>) -> CheckView {
    let id = "held-packages"@;
    let title = "Held-back packages"@;
    match run {
        Ok(o) => if o.success {
            let held = non_blank(lines(o.stdout));
            if held.len() == 0 {
                check_of(id, title, "ok"@, "No packages are on hold."@, None)
            } else {
                check_of(
                    id,
                    title,
                    "warn"@,
                    dec(held.len()) + " package(s) held back from upgrades: "@ + join(held, ", "@)
                        + ". Holds are sometimes intentional; remove one with `sudo apt-mark unhold <pkg>`."@,
                    None,
                )
            }
        } else {
            check_of(id, title, "unknown"@, trim(o.stderr), None)
        },
        Err(e) => check_of(id, title, "unknown"@, "apt-mark failed: "@ + e, None),
    }
}

pub fn held_packages_check(run: Result<ProgramOutput, String>) -> (c: Check)
    ensures
        c@ == held_packages_view(run_view(run)),
{
    let id = "held-packages";
    let title = "Held-back packages";
    match run {
        Ok(out) => if out.success {
            let held = non_blank_lines(out.stdout.as_str());
            if held.len() == 0 {
                Check::new(id, title, "ok", owned("No packages are on hold."), None)
            } else {
                let mut d = dec_chars(held.len() as u64);
                push_all(&mut d, chars_of(" package(s) held back from upgrades: ").as_slice());
                push_all(&mut d, join_chars(&held, chars_of(", ").as_slice()).as_slice());
                push_all(
                    &mut d,
                    chars_of(
                        ". Holds are sometimes intentional; remove one with `sudo apt-mark unhold <pkg>`.",
                    ).as_slice(),
                );
                Check::new(id, title, "warn", string_of(d.as_slice()), None)
            }
        } else {
            let t = trim_chars(chars_of(out.stderr.as_str()).as_slice());
            Check::new(id, title, "unknown", string_of(t.as_slice()), None)
        },
        Err(e) => Check::new(
            id,
            title,
            "unknown",
            labelled_string("apt-mark failed: ", e.as_str()),
            None,
        ),
    }
}

// ---- Pending restart ----

/// The check of the reboot-required flag file, with the text of the list of
/// packages that asked for it (empty when it could not be read).
pub open spec fn reboot_required_view(flag: bool, pkgs: Seq<char>) -> CheckView {
    let id = "reboot-required"@;
    let title = "Pending restart"@;
    if flag {
        let ps = non_blank(lines(pkgs));
        check_of(
            id,
            title,
            "warn"@,
            if ps.len() == 0 {
                "A previous update needs a restart to take effect."@
            } else {
                "Restart needed to finish updating: "@ + join(ps, ", "@) + "."@
            },
            None,
        )
    } else {
        check_of(id, title, "ok"@, "No restart pending."@, None)
    }
}

pub fn reboot_required_check(flag: bool, pkgs: &str) -> (c: Check)
    ensures
        c@ == reboot_required_view(flag, pkgs@),
{
    let id = "reboot-required";
    let title = "Pending restart";
    if flag {
        let ps = non_blank_lines(pkgs);
        let detail = if ps.len() == 0 {
            owned("A previous update needs a restart to take effect.")
        } else {
            let mut d = chars_of("Restart needed to finish updating: ");
            push_all(&mut d, join_chars(&ps, chars_of(", ").as_slice()).as_slice());
            push_all(&mut d, chars_of(".").as_slice());
            string_of(d.as_slice())
        };
        Check::new(id, title, "warn", detail, None)
    } else {
        Check::new(id, title, "ok", owned("No restart pending."), None)
    }
}

// ---- Space on /boot ----

/// The used percentage and free kilobytes in the data line of `df -P`
/// (its second line): columns 5 (without `%`) and 4, each 0 when missing
/// or not a number. `None` when there is no second line.
pub open spec fn df_reading(stdout: Seq<char>) -> Option<(u32, u64)> {
    let ls = lines(stdout);
    if ls.len() < 2 {
        None
    } else {
        let cols = words(ls[1]);
        let used = if cols.len() > 4 {
            match parse_u32(trim_end_char(cols[4], '%')) {
                Some(v) => v,
                None => 0,
            }
        } else {
            0
        };
        let avail = if cols.len() > 3 {
            match parse_u64(cols[3]) {
                Some(v) => v,
                None => 0,
            }
        } else {
            0
        };
        Some((used, avail))
    }
}

pub fn parse_df(stdout: &str) -> (r: Option<(u32, u64)>)
    ensures
        r == df_reading(stdout@),
{
    let ls = lines_of(chars_of(stdout).as_slice());
    if ls.len() < 2 {
        return None;
    }
    let cols = words_of(ls[1].as_slice());
    let ghost cv = cviews(cols@);
    let used: u32 = if cols.len() > 4 {
        assert(cv[4] == cols@[4]@);
        match parse_u32_chars(trim_end_char_chars(cols[4].as_slice(), '%').as_slice()) {
            Some(v) => v,
            None => 0,
        }
    } else {
        0
    };
    let avail: u64 = if cols.len() > 3 {
        assert(cv[3] == cols@[3]@);
        match parse_u64_chars(cols[3].as_slice()) {
            Some(v) => v,
            None => 0,
        }
    } else {
        0
    };
    Some((used, avail))
}

/// What `df -P /boot` told about /boot.
#[derive(Debug, Clone)]
pub enum DiskReading {
    /// `df` failed or could not run.
    Unavailable,
    /// `df` ran but printed no data line.
    Unexpected,
    /// The used percentage and the free space, already rendered for people.
    Usage { used_pct: u32, avail: String },
}

/// The check of /boot: a full /boot is the classic cause of failed kernel upgrades.
pub open spec fn boot_space_view(r: DiskReading) -> CheckView {
    let id = "boot-space"@;
    let title = "Space on /boot"@;
    match r {
        DiskReading::Unavailable => check_of(id, title, "unknown"@, "Could not stat /boot."@, None),
        DiskReading::Unexpected => check_of(id, title, "unknown"@, "Unexpected df output."@, None),
        DiskReading::Usage { used_pct, avail } => check_of(
            id,
            title,
            if used_pct >= 90 {
                "bad"@
            } else if used_pct >= 75 {
                "warn"@
            } else {
                "ok"@
            },
            dec(used_pct as nat) + "% used, "@ + avail@
                + " free. Old kernels are the usual culprit when this fills up."@,
            if used_pct >= 75 {
                autoremove()
            } else {
                None
            },
        ),
    }
}

pub fn boot_space_check(r: DiskReading) -> (c: Check)
    ensures
        c@ == boot_space_view(r),
{
    let id = "boot-space";
    let title = "Space on /boot";
    match r {
        DiskReading::Unavailable => Check::new(
            id,
            title,
            "unknown",
            owned("Could not stat /boot."),
            None,
        ),
        DiskReading::Unexpected => Check::new(
            id,
            title,
            "unknown",
            owned("Unexpected df output."),
            None,
        ),
        DiskReading::Usage { used_pct, avail } => {
            let mut d = dec_chars(used_pct as u64);
            push_all(&mut d, chars_of("% used, ").as_slice());
            push_all(&mut d, chars_of(avail.as_str()).as_slice());
            push_all(
                &mut d,
                chars_of(" free. Old kernels are the usual culprit when this fills up.").as_slice(),
            );
            let detail = string_of(d.as_slice());
            if used_pct >= 90 {
                Check::new(
                    id,
                    title,
                    "bad",
                    detail,
                    repair("autoremove", "Remove unused packages & old kernels"),
                )
            } else if used_pct >= 75 {
                Check::new(
                    id,
                    title,
                    "warn",
                    detail,
                    repair("autoremove", "Remove unused packages & old kernels"),
                )
            } else {
                Check::new(id, title, "ok", detail, None)
            }
        },
    }
}

// ---- Package list freshness ----

/// The check of the package lists' age, from the seconds since the newest
/// list changed (`None` when the lists could not be read). Stale lists mean
/// "0 updates" can be a lie.
pub open spec fn lists_freshness_view(age_secs: Option<u64>) -> CheckView {
    let id = "lists-freshness"@;
    let title = "Package list freshness"@;
    match age_secs {
        None => check_of(id, title, "unknown"@, "Could not read /var/lib/apt/lists."@, None),
        Some(secs) => {
            let days = secs / 86400;
            if days >= 14 {
                check_of(
                    id,
                    title,
                    "warn"@,
                    "Package lists were last refreshed "@ + dec(days as nat)
                        + " days ago — the update list may be incomplete. Use “Check again” on the Updates tab to refresh."@,
                    None,
                )
            } else {
                check_of(
                    id,
                    title,
                    "ok"@,
                    "Package lists refreshed "@ + (if days == 0 {
                        "today"@
                    } else {
                        dec(days as nat) + " day(s) ago"@
                    }) + "."@,
                    None,
                )
            }
        },
    }
}

pub fn lists_freshness_check(age_secs: Option<u64>) -> (c: Check)
    ensures
        c@ == lists_freshness_view(age_secs),
{
    let id = "lists-freshness";
    let title = "Package list freshness";
    match age_secs {
        None => Check::new(
            id,
            title,
            "unknown",
            owned("Could not read /var/lib/apt/lists."),
            None,
        ),
        Some(secs) => {
            let days = secs / 86400;
            if days >= 14 {
                let mut d = chars_of("Package lists were last refreshed ");
                push_all(&mut d, dec_chars(days).as_slice());
                push_all(
                    &mut d,
                    chars_of(
                        " days ago — the update list may be incomplete. Use “Check again” on the Updates tab to refresh.",
                    ).as_slice(),
                );
                Check::new(id, title, "warn", string_of(d.as_slice()), None)
            } else {
                let mut d = chars_of("Package lists refreshed ");
                if days == 0 {
                    push_all(&mut d, chars_of("today").as_slice());
                } else {
                    let mut ago = dec_chars(days);
                    push_all(&mut ago, chars_of(" day(s) ago").as_slice());
                    push_all(&mut d, ago.as_slice());
                }
                push_all(&mut d, chars_of(".").as_slice());
                Check::new(id, title, "ok", string_of(d.as_slice()), None)
            }
        },
    }
}

// ---- Installed kernels ----

/// A line of `dpkg-query` for an installed kernel image: its status ends the
/// line, and its first word (the package name) holds a digit.
pub open spec fn is_kernel_image(l: Seq<char>) -> bool {
    &&& ends_with(l, "install ok installed"@)
    &&& words(l).len() > 0
    &&& exists|i: int| 0 <= i < words(l)[0].len() && is_digit(#[trigger] words(l)[0][i])
}

/// How many of the lines are installed kernel images.
pub open spec fn kernel_count(ls: Seq<Seq<char>>) -> nat
    decreases ls.len(),
{
    if ls.len() == 0 {
        0
    } else {
        kernel_count(ls.drop_last()) + if is_kernel_image(ls.last()) {
            1nat
        } else {
            0nat
        }
    }
}

/// The check of installed kernels: old ones pile up in /boot until
/// autoremove clears them. `uname` gives the running kernel (empty when it
/// failed); `query` is the package query.
pub open spec fn kernels_view(
    uname: Result<OutputView, Seq<char>>,
    query: Result<OutputView, Seq<char>>,
) -> CheckView {
    let id = "kernels"@;
    let title = "Installed kernels"@;
    let running = match uname {
        Ok(o) => trim(o.stdout),
        Err(_) => Seq::empty(),
    };
    match query {
        Ok(o) => {
            let n = kernel_count(lines(o.stdout));
            let detail = "Running kernel "@ + running + " · "@ + dec(n)
                + " kernel image(s) installed."@;
            if n > 3 {
                check_of(
                    id,
                    title,
                    "info"@,
                    detail + " Older ones can be cleaned up safely."@,
                    autoremove(),
                )
            } else {
                check_of(id, title, "ok"@, detail, None)
            }
        },
        Err(e) => check_of(id, title, "unknown"@, "dpkg-query failed: "@ + e, None),
    }
}

fn has_digit(s: &[char]) -> (b: bool)
    ensures
        b == exists|i: int| 0 <= i < s@.len() && is_digit(#[trigger] s@[i]),
{
    let mut i: usize = 0;
    while i < s.len()
        invariant
            i <= s@.len(),
            forall|k: int| 0 <= k < i ==> !is_digit(s@[k]),
        decreases s.len() - i,
    {
        if '0' <= s[i] && s[i] <= '9' {
            assert(is_digit(s@[i as int]));
            return true;
        }
        i += 1;
    }
    false
}

fn is_kernel_image_line(l: &[char]) -> (b: bool)
    ensures
        b == is_kernel_image(l@),
{
    if !ends_with_chars(l, chars_of("install ok installed").as_slice()) {
        return false;
    }
    let ws = words_of(l);
    if ws.len() == 0 {
        return false;
    }
    assert(cviews(ws@)[0] == ws@[0]@);
    has_digit(ws[0].as_slice())
}

fn kernel_count_of(stdout: &str) -> (n: usize)
    ensures
        n == kernel_count(lines(stdout@)),
{
    let ls = lines_of(chars_of(stdout).as_slice());
    let ghost lv = cviews(ls@);
    let mut n: usize = 0;
    let mut i: usize = 0;
    assert(lv.take(0) =~= Seq::<Seq<char>>::empty());
    while i < ls.len()
        invariant
            i <= ls@.len(),
            lv == cviews(ls@),
            n == kernel_count(lv.take(i as int)),
            n <= i,
        decreases ls.len() - i,
    {
        assert(lv.take(i + 1).drop_last() =~= lv.take(i as int));
        assert(lv.take(i + 1).last() == ls@[i as int]@);
        if is_kernel_image_line(ls[i].as_slice()) {
            n += 1;
        }
        i += 1;
    }
    assert(lv.take(ls@.len() as int) =~= lv);
    n
}

pub fn kernels_check(uname: Result<ProgramOutput, String>, query: Result<ProgramOutput, String>) -> (c:
    Check)
    ensures
        c@ == kernels_view(run_view(uname), run_view(query)),
{
    let id = "kernels";
    let title = "Installed kernels";
    let running: Vec<char> = match uname {
        Ok(o) => trim_chars(chars_of(o.stdout.as_str()).as_slice()),
        Err(_) => Vec::new(),
    };
    match query {
        Ok(o) => {
            let n = kernel_count_of(o.stdout.as_str());
            let mut d = chars_of("Running kernel ");
            push_all(&mut d, running.as_slice());
            push_all(&mut d, chars_of(" · ").as_slice());
            push_all(&mut d, dec_chars(n as u64).as_slice());
            push_all(&mut d, chars_of(" kernel image(s) installed.").as_slice());
            if n > 3 {
                push_all(&mut d, chars_of(" Older ones can be cleaned up safely.").as_slice());
                Check::new(
                    id,
                    title,
                    "info",
                    string_of(d.as_slice()),
                    repair("autoremove", "Remove unused packages & old kernels"),
                )
            } else {
                Check::new(id, title, "ok", string_of(d.as_slice()), None)
            }
        },
        Err(e) => Check::new(
            id,
            title,
            "unknown",
            labelled_string("dpkg-query failed: ", e.as_str()),
            None,
        ),
    }
}

// ---- Download size ----

/// The first line that starts with `p`.
pub open spec fn first_starting(ls: Seq<Seq<char>>, p: Seq<char>) -> Option<Seq<char>>
    decreases ls.len(),
{
    if ls.len() == 0 {
        None
    } else if starts_with(ls[0], p) {
        Some(ls[0])
    } else {
        first_starting(ls.drop_first(), p)
    }
}

/// The total download size that apt's simulated upgrade announces on its
/// "Need to get …" line, e.g. "456 MB". "1,234 kB/456 MB" means part is
/// already cached: the amount to fetch is the part before the slash and the
/// total the part after it. Empty when there is no such line or nothing to
/// fetch (the amount to fetch starts with "0 ").
pub open spec fn download_size(stdout: Seq<char>) -> Seq<char> {
    match first_starting(lines(stdout), "Need to get "@) {
        None => Seq::empty(),
        Some(l) => {
            let rest = l.skip("Need to get "@.len() as int);
            let size = split_str(rest, " of archives"@)[0];
            let fetch = trim(split_on(size, '/')[0]);
            let total = trim(split_on(size, '/').last());
            if starts_with(fetch, "0 "@) {
                Seq::empty()
            } else {
                total
            }
        },
    }
}

fn first_starting_of(ls: &Vec<Vec<char>>, p: &[char]) -> (r: Option<usize>)
    ensures
        match r {
            Some(i) => i < ls@.len() && first_starting(cviews(ls@), p@) == Some(ls@[i as int]@)
                && starts_with(ls@[i as int]@, p@),
            None => first_starting(cviews(ls@), p@) is None,
        },
{
    let ghost all = cviews(ls@);
    let mut i: usize = 0;
    assert(all.skip(0) =~= all);
    while i < ls.len()
        invariant
            i <= ls@.len(),
            all == cviews(ls@),
            first_starting(all, p@) == first_starting(all.skip(i as int), p@),
        decreases ls.len() - i,
    {
        assert(all.skip(i as int)[0] == ls@[i as int]@);
        if starts_with_chars(ls[i].as_slice(), p) {
            return Some(i);
        }
        assert(all.skip(i as int).drop_first() =~= all.skip(i + 1));
        i += 1;
    }
    None
}

pub fn parse_download_size(stdout: &str) -> (r: String)
    ensures
        r@ == download_size(stdout@),
{
    let ls = lines_of(chars_of(stdout).as_slice());
    let prefix = chars_of("Need to get ");
    match first_starting_of(&ls, prefix.as_slice()) {
        None => String::new(),
        Some(i) => {
            let l = &ls[i];
            let rest = slice_copy(l.as_slice(), prefix.len(), l.len());
            assert(rest@ =~= l@.skip(prefix@.len() as int));
            let pieces = split_str_chars(rest.as_slice(), chars_of(" of archives").as_slice());
            proof {
                crate::text::lemma_split_from_len(rest@, " of archives"@, 0, 0);
            }
            assert(cviews(pieces@)[0] == pieces@[0]@);
            let parts = split_on_chars(pieces[0].as_slice(), '/');
            proof {
                lemma_split_on_len(pieces@[0]@, '/');
            }
            let last = parts.len() - 1;
            assert(cviews(parts@).last() == parts@[last as int]@);
            assert(cviews(parts@)[0] == parts@[0]@);
            let fetch = trim_chars(parts[0].as_slice());
            let total = trim_chars(parts[last].as_slice());
            if starts_with_chars(fetch.as_slice(), chars_of("0 ").as_slice()) {
                String::new()
            } else {
                string_of(total.as_slice())
            }
        },
    }
}

// ---- Journal size ----

/// The size in `journalctl --disk-usage`'s "… take up 1.5G in the file
/// system.": the first word after "take up ", without trailing dots. Empty
/// when the program failed or the text is not there.
pub open spec fn journal_size(success: bool, stdout: Seq<char>) -> Seq<char> {
    if !success {
        Seq::empty()
    } else {
        let pieces = split_str(stdout, "take up "@);
        if pieces.len() > 1 && words(pieces[1]).len() > 0 {
            trim_end_char(words(pieces[1])[0], '.')
        } else {
            Seq::empty()
        }
    }
}

pub fn parse_journal_usage(success: bool, stdout: &str) -> (r: String)
    ensures
        r@ == journal_size(success, stdout@),
{
    if !success {
        return String::new();
    }
    let pieces = split_str_chars(chars_of(stdout).as_slice(), chars_of("take up ").as_slice());
    if pieces.len() > 1 {
        assert(cviews(pieces@)[1] == pieces@[1]@);
        let ws = words_of(pieces[1].as_slice());
        if ws.len() > 0 {
            assert(cviews(ws@)[0] == ws@[0]@);
            return string_of(trim_end_char_chars(ws[0].as_slice(), '.').as_slice());
        }
    }
    String::new()
}

// ---- Autoremove ----

/// The state while reading `apt-get -s autoremove`: the packages found so
/// far, whether the removal list is being read, and the space it frees.
pub struct AutoremoveScan {
    pub packages: Seq<Seq<char>>,
    pub in_block: bool,
    pub frees: Seq<char>,
}

/// The words of an indented line, each without trailing `*`.
pub open spec fn package_words(ws: Seq<Seq<char>>) -> Seq<Seq<char>> {
    ws.map_values(|w: Seq<char>| trim_end_char(w, '*'))
}

/// The freed space in "After this operation, 123 MB disk space will be
/// freed.": the trimmed text between the first comma and " disk space",
/// when the comma comes first.
pub open spec fn freed_space(line: Seq<char>) -> Option<Seq<char>> {
    match (find(line, ","@), find(line, " disk space"@)) {
        (Some(c), Some(e)) => if c + 1 < e {
            Some(trim(line.subrange(c + 1, e)))
        } else {
            None
        },
        _ => None,
    }
}

/// One line of the output read.
pub open spec fn autoremove_step(st: AutoremoveScan, line: Seq<char>) -> AutoremoveScan {
    if starts_with(line, "The following packages will be REMOVED"@) {
        AutoremoveScan { in_block: true, ..st }
    } else {
        let st2 = if st.in_block {
            if starts_with(line, " "@) {
                AutoremoveScan {
                    packages: st.packages + package_words(words(line)),
                    ..st
                }
            } else {
                AutoremoveScan { in_block: false, ..st }
            }
        } else {
            st
        };
        if starts_with(line, "After this operation"@) {
            match freed_space(line) {
                Some(f) => AutoremoveScan { frees: f, ..st2 },
                None => st2,
            }
        } else {
            st2
        }
    }
}

/// The state after reading the lines.
pub open spec fn autoremove_scan(ls: Seq<Seq<char>>) -> AutoremoveScan
    decreases ls.len(),
{
    if ls.len() == 0 {
        AutoremoveScan { packages: Seq::empty(), in_block: false, frees: Seq::empty() }
    } else {
        autoremove_step(autoremove_scan(ls.drop_last()), ls.last())
    }
}

fn freed_space_of(line: &[char]) -> (r: Option<Vec<char>>)
    ensures
        match r {
            Some(f) => freed_space(line@) == Some(f@),
            None => freed_space(line@) is None,
        },
{
    let comma = chars_of(",");
    let disk = chars_of(" disk space");
    match (find_chars(line, comma.as_slice()), find_chars(line, disk.as_slice())) {
        (Some(c), Some(e)) => {
            proof {
                lemma_find_from(line@, comma@, 0);
                lemma_find_from(line@, disk@, 0);
            }
            if e > 0 && c < e - 1 {
                let mid = slice_copy(line, c + 1, e);
                Some(trim_chars(mid.as_slice()))
            } else {
                None
            }
        },
        _ => None,
    }
}

fn package_words_of(ws: &Vec<Vec<char>>) -> (r: Vec<Vec<char>>)
    ensures
        cviews(r@) == package_words(cviews(ws@)),
{
    let mut r: Vec<Vec<char>> = Vec::new();
    let mut i: usize = 0;
    while i < ws.len()
        invariant
            i <= ws@.len(),
            cviews(r@) == package_words(cviews(ws@).take(i as int)),
        decreases ws.len() - i,
    {
        let w = trim_end_char_chars(ws[i].as_slice(), '*');
        let ghost before = r@;
        r.push(w);
        assert(cviews(r@) =~= cviews(before).push(w@));
        assert(cviews(ws@).take(i + 1) =~= cviews(ws@).take(i as int).push(ws@[i as int]@));
        assert(package_words(cviews(ws@).take(i + 1)) =~= package_words(cviews(ws@).take(
            i as int,
        )).push(trim_end_char(ws@[i as int]@, '*')));
        i += 1;
    }
    assert(cviews(ws@).take(ws@.len() as int) =~= cviews(ws@));
    r
}

/// The packages that autoremove would remove (the indented block after "The
/// following packages will be REMOVED:") and the space it would free.
pub open spec fn autoremove_plan(stdout: Seq<char>) -> (Seq<Seq<char>>, Seq<char>) {
    let st = autoremove_scan(lines(stdout));
    (st.packages, st.frees)
}

pub fn parse_autoremove(stdout: &str) -> (r: (Vec<String>, String))
    ensures
        (views(r.0@), r.1@) == autoremove_plan(stdout@),
{
    let ls = lines_of(chars_of(stdout).as_slice());
    let ghost lv = cviews(ls@);
    let header = chars_of("The following packages will be REMOVED");
    let indent = chars_of(" ");
    let after = chars_of("After this operation");
    let mut packages: Vec<Vec<char>> = Vec::new();
    let mut in_block = false;
    let mut frees: Vec<char> = Vec::new();
    let mut i: usize = 0;
    assert(lv.take(0) =~= Seq::<Seq<char>>::empty());
    assert(cviews(packages@) =~= Seq::<Seq<char>>::empty());
    assert(frees@ =~= Seq::<char>::empty());
    while i < ls.len()
        invariant
            i <= ls@.len(),
            lv == cviews(ls@),
            header@ == "The following packages will be REMOVED"@,
            indent@ == " "@,
            after@ == "After this operation"@,
            autoremove_scan(lv.take(i as int)) == (AutoremoveScan {
                packages: cviews(packages@),
                in_block,
                frees: frees@,
            }),
        decreases ls.len() - i,
    {
        assert(lv.take(i + 1).drop_last() =~= lv.take(i as int));
        assert(lv.take(i + 1).last() == ls@[i as int]@);
        let line = &ls[i];
        if starts_with_chars(line.as_slice(), header.as_slice()) {
            in_block = true;
        } else {
            if in_block {
                if starts_with_chars(line.as_slice(), indent.as_slice()) {
                    let more = package_words_of(&words_of(line.as_slice()));
                    let ghost before = packages@;
                    let mut more = more;
                    let ghost m = more@;
                    packages.append(&mut more);
                    assert(cviews(packages@) =~= cviews(before) + cviews(m));
                } else {
                    in_block = false;
                }
            }
            if starts_with_chars(line.as_slice(), after.as_slice()) {
                match freed_space_of(line.as_slice()) {
                    Some(f) => {
                        frees = f;
                    },
                    None => {},
                }
            }
        }
        i += 1;
    }
    assert(lv.take(ls@.len() as int) =~= lv);
    (strings_of(&packages), string_of(frees.as_slice()))
}

// ---- Package cache ----

/// Index of the last `.` in `name`.
pub open spec fn last_dot(name: Seq<char>) -> Option<int>
    decreases name.len(),
{
    if name.len() == 0 {
        None
    } else if name.last() == '.' {
        Some(name.len() - 1)
    } else {
        last_dot(name.drop_last())
    }
}

/// `Path::extension` of a file name: the part after the last `.`, unless
/// there is none or the name starts with its only `.`.
pub open spec fn extension(name: Seq<char>) -> Option<Seq<char>> {
    match last_dot(name) {
        Some(i) => if i == 0 {
            None
        } else {
            Some(name.skip(i + 1))
        },
        None => None,
    }
}

/// A downloaded package archive.
pub open spec fn is_deb(name: Seq<char>) -> bool {
    extension(name) == Some("deb"@)
}

/// The total size and the number of the package archives among `(name, size)` entries.
pub open spec fn deb_totals(files: Seq<(Seq<char>, u64)>) -> (int, nat)
    decreases files.len(),
{
    if files.len() == 0 {
        (0, 0)
    } else {
        let (b, n) = deb_totals(files.drop_last());
        if is_deb(files.last().0) {
            (b + files.last().1, n + 1)
        } else {
            (b, n)
        }
    }
}

/// The entries of a directory as `(name, size)` pairs.
pub open spec fn file_views(files: Seq<(String, u64)>) -> Seq<(Seq<char>, u64)> {
    files.map_values(|f: (String, u64)| (f.0@, f.1))
}

fn is_deb_name(name: &[char]) -> (b: bool)
    ensures
        b == is_deb(name@),
{
    let mut k = name.len();
    assert(name@.take(k as int) =~= name@);
    while k > 0 && name[k - 1] != '.'
        invariant
            k <= name@.len(),
            last_dot(name@) == last_dot(name@.take(k as int)),
        decreases k,
    {
        assert(name@.take(k as int).drop_last() =~= name@.take(k - 1));
        k -= 1;
    }
    if k <= 1 {
        return false;
    }
    let ext = slice_copy(name, k, name.len());
    assert(ext@ =~= name@.skip(k as int));
    crate::text::same(ext.as_slice(), chars_of("deb").as_slice())
}

/// The total size and number of `.deb` files among the cache directory's
/// entries; `None` when the total does not fit in 64 bits.
pub fn cache_totals(files: &Vec<(String, u64)>) -> (r: Option<(u64, usize)>)
    ensures
        match r {
            Some((b, n)) => deb_totals(file_views(files@)) == (b as int, n as nat),
            None => deb_totals(file_views(files@)).0 > u64::MAX,
        },
{
    let ghost fv = file_views(files@);
    let mut bytes: u64 = 0;
    let mut count: usize = 0;
    let mut i: usize = 0;
    assert(fv.take(0) =~= Seq::<(Seq<char>, u64)>::empty());
    while i < files.len()
        invariant
            i <= files@.len(),
            fv == file_views(files@),
            deb_totals(fv.take(i as int)) == (bytes as int, count as nat),
            count <= i,
        decreases files.len() - i,
    {
        assert(fv.take(i + 1).drop_last() =~= fv.take(i as int));
        assert(fv.take(i + 1).last() == (files@[i as int].0@, files@[i as int].1));
        if is_deb_name(chars_of(files[i].0.as_str()).as_slice()) {
            let size = files[i].1;
            if size > u64::MAX - bytes {
                proof {
                    lemma_deb_totals_grow(fv, i + 1);
                }
                return None;
            }
            bytes = bytes + size;
            count = count + 1;
        }
        i += 1;
    }
    assert(fv.take(files@.len() as int) =~= fv);
    Some((bytes, count))
}

/// The running total never shrinks as entries are added.
proof fn lemma_deb_totals_grow(files: Seq<(Seq<char>, u64)>, k: int)
    requires
        0 <= k <= files.len(),
    ensures
        deb_totals(files.take(k)).0 <= deb_totals(files).0,
    decreases files.len() - k,
{
    if k < files.len() {
        lemma_deb_totals_grow(files, k + 1);
        assert(files.take(k + 1).drop_last() =~= files.take(k));
    } else {
        assert(files.take(k) =~= files);
    }
}

// ---- Cleanup ----

#[derive(Debug, Clone)]
pub struct CleanupInfo {
    pub autoremovable: Vec<String>,
    pub autoremove_frees: String,
    pub cache_size: String,
    pub cache_files: usize,
    /// e.g. "1.5G", from `journalctl --disk-usage`; empty if unavailable.
    pub journal_size: String,
    pub old_snaps: Vec<OldSnap>,
}

// ---- Properties of all checks ----

/// The statuses a check can have.
pub open spec fn is_status(s: Seq<char>) -> bool {
    s == "ok"@ || s == "warn"@ || s == "bad"@ || s == "info"@ || s == "unknown"@
}

/// A check has one of the known statuses, offers a repair only when it is
/// not "ok", and every repair it offers is a whitelisted action.
pub open spec fn sound_check(c: CheckView) -> bool {
    &&& is_status(c.status)
    &&& c.status == "ok"@ ==> c.repair is None
    &&& c.repair matches Some((id, _)) ==> action_line(id) is Some
}

/// Every health check, whatever its programs and files gave back, has a
/// known status ("ok", "warn", "bad", "info" or "unknown"), offers no repair
/// when it is "ok", and offers only repairs that are whitelisted actions.
pub proof fn checks_are_sound(
    names: Result<Seq<Seq<char>>, Seq<char>>,
    run: Result<OutputView, Seq<char>>,
    uname: Result<OutputView, Seq<char>>,
    disk: DiskReading,
    age_secs: Option<u64>,
    flag: bool,
    pkgs: Seq<char>,
)
    ensures
        sound_check(dpkg_interrupted_view(names)),
        sound_check(dpkg_audit_view(run)),
        sound_check(broken_deps_view(run)),
        sound_check(held_packages_view(run)),
        sound_check(boot_space_view(disk)),
        sound_check(lists_freshness_view(age_secs)),
        sound_check(kernels_view(uname, run)),
        sound_check(reboot_required_view(flag, pkgs)),
{
    reveal_strlit("ok");
    reveal_strlit("warn");
    reveal_strlit("bad");
    reveal_strlit("info");
    reveal_strlit("unknown");
    assert("ok"@.len() == 2);
    assert("bad"@.len() == 3);
    assert("unknown"@.len() == 7);
    assert("bad"@ != "ok"@);
}

/// The journal count is positive exactly when some name is made of ASCII
/// digits only.
proof fn lemma_journal_count_positive(names: Seq<Seq<char>>)
    ensures
        journal_count(names) > 0 <==> exists|i: int| 0 <= i < names.len() && all_digits(
            #[trigger] names[i],
        ),
    decreases names.len(),
{
    if names.len() > 0 {
        let d = names.drop_last();
        lemma_journal_count_positive(d);
        if exists|i: int| 0 <= i < d.len() && all_digits(#[trigger] d[i]) {
            let i = choose|i: int| 0 <= i < d.len() && all_digits(#[trigger] d[i]);
            assert(names[i] == d[i]);
        }
        if exists|i: int| 0 <= i < names.len() && all_digits(#[trigger] names[i]) {
            let i = choose|i: int| 0 <= i < names.len() && all_digits(#[trigger] names[i]);
            if i < d.len() {
                assert(d[i] == names[i]);
            }
        }
    }
}

/// dpkg's journal directory: when some entry's name is all ASCII digits, a
/// run was interrupted, and the check is "bad", offers the configure-dpkg
/// repair and says how many such entries there are; when no name is, it is
/// "ok" with no repair. A directory that cannot be read is "unknown".
pub proof fn interrupted_dpkg_is_bad(names: Seq<Seq<char>>, e: Seq<char>)
    ensures
        (exists|i: int| 0 <= i < names.len() && all_digits(#[trigger] names[i])) ==> {
            let c = dpkg_interrupted_view(Ok(names));
            &&& c.status == "bad"@
            &&& c.repair == Some(("configure-dpkg"@, "Finish pending configuration"@))
            &&& c.detail == "dpkg was interrupted mid-operation ("@ + dec(journal_count(names))
                + " pending journal entries). Packages may be half-installed until it finishes."@
            &&& journal_count(names) >= 1
        },
        !(exists|i: int| 0 <= i < names.len() && all_digits(#[trigger] names[i])) ==> {
            let c = dpkg_interrupted_view(Ok(names));
            &&& c.status == "ok"@
            &&& c.repair is None
        },
        dpkg_interrupted_view(Err(e)).status == "unknown"@,
        journal_count(names) <= names.len(),
{
    lemma_journal_count_positive(names);
    lemma_journal_count_le(names);
}

proof fn lemma_journal_count_le(names: Seq<Seq<char>>)
    ensures
        journal_count(names) <= names.len(),
    decreases names.len(),
{
    if names.len() > 0 {
        lemma_journal_count_le(names.drop_last());
    }
}

/// `first_with_both` gives the first line that holds both texts.
proof fn lemma_first_with_both(ls: Seq<Seq<char>>, a: Seq<char>, b: Seq<char>)
    ensures
        match first_with_both(ls, a, b) {
            Some(l) => exists|k: int|
                0 <= k < ls.len() && ls[k] == l && contains(ls[k], a) && contains(ls[k], b)
                    && forall|j: int| 0 <= j < k ==> !(contains(#[trigger] ls[j], a) && contains(ls[j], b)),
            None => forall|k: int| 0 <= k < ls.len() ==> !(contains(#[trigger] ls[k], a) && contains(ls[k], b)),
        },
    decreases ls.len(),
{
    if ls.len() > 0 && !(contains(ls[0], a) && contains(ls[0], b)) {
        let t = ls.drop_first();
        lemma_first_with_both(t, a, b);
        match first_with_both(t, a, b) {
            Some(l) => {
                let k = choose|k: int|
                    0 <= k < t.len() && t[k] == l && contains(t[k], a) && contains(t[k], b)
                        && forall|j: int| 0 <= j < k ==> !(contains(#[trigger] t[j], a) && contains(t[j], b));
                assert(ls[k + 1] == t[k]);
                assert forall|j: int| 0 <= j < k + 1 implies !(contains(#[trigger] ls[j], a) && contains(ls[j], b)) by {
                    if j > 0 {
                        assert(ls[j] == t[j - 1]);
                    }
                }
            },
            None => {
                assert forall|k: int| 0 <= k < ls.len() implies !(contains(#[trigger] ls[k], a) && contains(ls[k], b)) by {
                    if k > 0 {
                        assert(ls[k] == t[k - 1]);
                    }
                }
            },
        }
    }
}

/// A successful simulated fix-broken run is "ok" exactly when the first line
/// holding both "upgraded" and "newly installed" starts, after leading
/// whitespace, with "0 upgraded, 0 newly installed, 0 to remove"; otherwise
/// (something would be upgraded, installed or removed, or there is no such
/// line) the check is "bad" and offers the fix-broken repair. A failed run
/// is "bad" with the same repair.
pub proof fn broken_deps_ok_only_when_nothing_changes(o: OutputView)
    ensures
        o.success ==> (broken_deps_view(Ok(o)).status == "ok"@ <==> exists|k: int|
            0 <= k < lines(o.stdout).len() && contains(lines(o.stdout)[k], "upgraded"@) && contains(
                lines(o.stdout)[k],
                "newly installed"@,
            ) && (forall|j: int|
                0 <= j < k ==> !(contains(#[trigger] lines(o.stdout)[j], "upgraded"@) && contains(
                    lines(o.stdout)[j],
                    "newly installed"@,
                ))) && starts_with(
                trim_start(lines(o.stdout)[k]),
                "0 upgraded, 0 newly installed, 0 to remove"@,
            )),
        broken_deps_view(Ok(o)).status != "ok"@ ==> {
            &&& broken_deps_view(Ok(o)).status == "bad"@
            &&& broken_deps_view(Ok(o)).repair == Some(("fix-broken"@, "Fix broken dependencies"@))
        },
{
    reveal_strlit("ok");
    reveal_strlit("bad");
    assert("ok"@.len() == 2);
    assert("bad"@.len() == 3);
    let ls = lines(o.stdout);
    let a = "upgraded"@;
    let b = "newly installed"@;
    let p = "0 upgraded, 0 newly installed, 0 to remove"@;
    lemma_first_with_both(ls, a, b);
    if o.success {
        if exists|k: int|
            0 <= k < ls.len() && contains(ls[k], a) && contains(ls[k], b) && (forall|j: int|
                0 <= j < k ==> !(contains(#[trigger] ls[j], a) && contains(ls[j], b)))
                && starts_with(trim_start(ls[k]), p) {
            let k = choose|k: int|
                0 <= k < ls.len() && contains(ls[k], a) && contains(ls[k], b) && (forall|j: int|
                    0 <= j < k ==> !(contains(#[trigger] ls[j], a) && contains(ls[j], b)))
                    && starts_with(trim_start(ls[k]), p);
            match first_with_both(ls, a, b) {
                Some(l) => {
                    let k2 = choose|k2: int|
                        0 <= k2 < ls.len() && ls[k2] == l && contains(ls[k2], a) && contains(ls[k2], b)
                            && forall|j: int| 0 <= j < k2 ==> !(contains(#[trigger] ls[j], a) && contains(ls[j], b));
                    if k < k2 {
                        assert(!(contains(ls[k], a) && contains(ls[k], b)));
                    }
                    if k2 < k {
                        assert(!(contains(ls[k2], a) && contains(ls[k2], b)));
                    }
                    assert(k == k2);
                },
                None => {
                    assert(!(contains(ls[k], a) && contains(ls[k], b)));
                },
            }
        }
    }
}

} // verus!
