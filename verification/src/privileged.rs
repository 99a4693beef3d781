//! Maintenance commands: the whitelisted repair and cleanup actions, the
//! pkexec command line that runs them as root, how their output lines are
//! kept, and what an exit status means. Spawning the processes is left to
//! the caller.
use vstd::prelude::*;
use crate::text::{
    chars_of, dec_signed, dec_signed_chars, join, join_chars, owned, push_all, string_of, trim,
    trim_chars, views,
};

verus! {

broadcast use vstd::string::group_string_axioms;

/// Exit status that pkexec itself uses when authorization failed.
pub const PKEXEC_AUTH_FAILED: i32 = 127;

/// Exit status that pkexec itself uses when the dialog was dismissed.
pub const PKEXEC_DISMISSED: i32 = 126;

/// How many error lines an outcome keeps.
pub const ERR_TAIL_LINES: usize = 10;

#[derive(Debug, Clone)]
pub struct CommandOutcome {
    pub code: Option<i32>,
    pub last_line: String,
    pub err_tail: Vec<String>,
}

/// The last `n` elements of `s` (all of them when there are fewer).
pub open spec fn keep_last(s: Seq<Seq<char>>, n: nat) -> Seq<Seq<char>> {
    if s.len() > n {
        s.skip(s.len() - n)
    } else {
        s
    }
}

/// What has been seen of a running command's output: the last non-empty
/// standard-output line and the last non-empty error lines.
#[derive(Debug, Clone)]
pub struct OutputLog {
    pub last: String,
    pub err_tail: Vec<String>,
}

impl OutputLog {
    /// At most `ERR_TAIL_LINES` error lines are kept.
    pub open spec fn wf(&self) -> bool {
        self.err_tail@.len() <= ERR_TAIL_LINES
    }

    pub fn new() -> (log: Self)
        ensures
            log.wf(),
            log.last@ == Seq::<char>::empty(),
            views(log.err_tail@) == Seq::<Seq<char>>::empty(),
    {
        let log = OutputLog { last: String::new(), err_tail: Vec::new() };
        assert(views(log.err_tail@) =~= Seq::<Seq<char>>::empty());
        log
    }

    /// A line read from standard output. Trimmed; when something is left it
    /// becomes the last line and is handed back to be shown.
    pub fn stdout_line(&mut self, line: &str) -> (shown: Option<String>)
        requires
            old(self).wf(),
        ensures
            final(self).wf(),
            views(final(self).err_tail@) == views(old(self).err_tail@),
            if trim(line@).len() == 0 {
                shown is None && final(self).last@ == old(self).last@
            } else {
                shown matches Some(l) && l@ == trim(line@) && final(self).last@ == trim(line@)
            },
    {
        let t = trim_chars(chars_of(line).as_slice());
        if t.len() == 0 {
            None
        } else {
            self.last = string_of(t.as_slice());
            Some(string_of(t.as_slice()))
        }
    }

    /// A line read from standard error. Trimmed; when something is left it is
    /// handed back to be shown and kept among the last `ERR_TAIL_LINES` error lines.
    pub fn stderr_line(&mut self, line: &str) -> (shown: Option<String>)
        requires
            old(self).wf(),
        ensures
            final(self).wf(),
            final(self).last@ == old(self).last@,
            if trim(line@).len() == 0 {
                shown is None && views(final(self).err_tail@) == views(old(self).err_tail@)
            } else {
                shown matches Some(l) && l@ == trim(line@) && views(final(self).err_tail@)
                    == keep_last(views(old(self).err_tail@).push(trim(line@)), ERR_TAIL_LINES as nat)
            },
    {
        let t = trim_chars(chars_of(line).as_slice());
        if t.len() == 0 {
            None
        } else {
            let ghost before = views(self.err_tail@);
            self.err_tail.push(string_of(t.as_slice()));
            assert(views(self.err_tail@) =~= before.push(t@));
            if self.err_tail.len() > ERR_TAIL_LINES {
                let ghost pushed = self.err_tail@;
                self.err_tail.remove(0);
                assert(views(self.err_tail@) =~= keep_last(before.push(t@), ERR_TAIL_LINES as nat));
            }
            Some(string_of(t.as_slice()))
        }
    }

    /// The outcome once the command exited with `code`.
    pub fn finish(self, code: Option<i32>) -> (o: CommandOutcome)
        ensures
            o.code == code,
            o.last_line@ == self.last@,
            views(o.err_tail@) == views(self.err_tail@),
    {
        CommandOutcome { code, last_line: self.last, err_tail: self.err_tail }
    }
}

/// Keeping the last lines one at a time keeps the last lines of everything seen.
pub proof fn keep_last_push(s: Seq<Seq<char>>, x: Seq<char>, n: nat)
    ensures
        keep_last(keep_last(s, n).push(x), n) == keep_last(s.push(x), n),
{
    assert(keep_last(keep_last(s, n).push(x), n) =~= keep_last(s.push(x), n));
}

/// `{:?}` of an exit code: "Some(2)", "None".
pub open spec fn code_text(code: Option<i32>) -> Seq<char> {
    match code {
        Some(c) => "Some("@ + dec_signed(c as int) + ")"@,
        None => "None"@,
    }
}

/// What a command run through pkexec amounts to: the last line it printed
/// (or "Done") when it succeeded, the reason otherwise.
pub open spec fn pkexec_outcome(code: Option<i32>, last: Seq<char>, tail: Seq<Seq<char>>) -> Result<
    Seq<char>,
    Seq<char>,
> {
    match code {
        Some(0) => Ok(
            if last.len() == 0 {
                "Done"@
            } else {
                last
            },
        ),
        Some(126) => Err("Authorization dialog was dismissed"@),
        Some(127) => Err("Not authorized (polkit refused)"@),
        _ => Err("command failed (exit "@ + code_text(code) + "): "@ + join(tail, " / "@)),
    }
}

/// The view of a `Result` of strings.
pub open spec fn result_view(r: Result<String, String>) -> Result<Seq<char>, Seq<char>> {
    match r {
        Ok(s) => Ok(s@),
        Err(e) => Err(e@),
    }
}

fn code_text_of(code: Option<i32>) -> (r: Vec<char>)
    ensures
        r@ == code_text(code),
{
    match code {
        Some(c) => {
            let mut r = chars_of("Some(");
            push_all(&mut r, dec_signed_chars(c as i64).as_slice());
            push_all(&mut r, chars_of(")").as_slice());
            r
        },
        None => chars_of("None"),
    }
}

fn strings_to_chars(v: &Vec<String>) -> (r: Vec<Vec<char>>)
    ensures
        crate::text::cviews(r@) == views(v@),
{
    let mut r: Vec<Vec<char>> = Vec::new();
    let mut i: usize = 0;
    while i < v.len()
        invariant
            i <= v@.len(),
            crate::text::cviews(r@) == views(v@).take(i as int),
        decreases v.len() - i,
    {
        let ghost before = r@;
        let c = chars_of(v[i].as_str());
        r.push(c);
        assert(crate::text::cviews(r@) =~= crate::text::cviews(before).push(c@));
        assert(views(v@).take(i + 1) =~= views(v@).take(i as int).push(v@[i as int]@));
        assert(crate::text::cviews(r@) =~= views(v@).take(i + 1));
        i += 1;
    }
    assert(views(v@).take(v@.len() as int) =~= views(v@));
    r
}

/// `strs.join(sep)` for strings.
pub fn join_strings(v: &Vec<String>, sep: &str) -> (r: String)
    ensures
        r@ == join(views(v@), sep@),
{
    let cs = strings_to_chars(v);
    string_of(join_chars(&cs, chars_of(sep).as_slice()).as_slice())
}

pub fn pkexec_result(outcome: CommandOutcome) -> (r: Result<String, String>)
    ensures
        result_view(r) == pkexec_outcome(outcome.code, outcome.last_line@, views(outcome.err_tail@)),
{
    match outcome.code {
        Some(0) => Ok(
            if outcome.last_line.as_str().is_empty() {
                owned("Done")
            } else {
                outcome.last_line
            },
        ),
        Some(PKEXEC_DISMISSED) => Err(owned("Authorization dialog was dismissed")),
        Some(PKEXEC_AUTH_FAILED) => Err(owned("Not authorized (polkit refused)")),
        code => {
            let mut d = chars_of("command failed (exit ");
            push_all(&mut d, code_text_of(code).as_slice());
            push_all(&mut d, chars_of("): ").as_slice());
            push_all(&mut d, chars_of(join_strings(&outcome.err_tail, " / ").as_str()).as_slice());
            Err(string_of(d.as_slice()))
        },
    }
}

/// A full command line: the program, its fixed arguments, then `more`.
pub fn command_line(fixed: Vec<String>, more: &Vec<String>) -> (r: Vec<String>)
    ensures
        views(r@) == views(fixed@) + views(more@),
{
    let mut r = fixed;
    let ghost start = views(r@);
    let mut i: usize = 0;
    while i < more.len()
        invariant
            i <= more@.len(),
            views(r@) == start + views(more@).take(i as int),
        decreases more.len() - i,
    {
        let ghost before = views(r@);
        let x = more[i].clone();
        assert(x@ == more@[i as int]@);
        r.push(x);
        assert(views(r@) =~= before.push(x@));
        assert(views(more@).take(i + 1) =~= views(more@).take(i as int).push(more@[i as int]@));
        assert(views(r@) =~= start + views(more@).take(i + 1));
        i += 1;
    }
    assert(views(more@).take(more@.len() as int) =~= views(more@));
    r
}

/// The pkexec command line for `argv`: pkexec scrubs the environment, so
/// `env` re-applies what apt and dpkg need.
pub open spec fn pkexec_line(argv: Seq<Seq<char>>) -> Seq<Seq<char>> {
    seq!["pkexec"@, "env"@, "DEBIAN_FRONTEND=noninteractive"@, "LC_ALL=C.UTF-8"@] + argv
}

/// The command line that runs `argv` as root, program first; an empty
/// `argv` is refused.
pub fn pkexec_command(argv: &Vec<String>) -> (r: Result<Vec<String>, String>)
    ensures
        match r {
            Ok(line) => argv@.len() > 0 && views(line@) == pkexec_line(views(argv@)),
            Err(e) => argv@.len() == 0 && e@ == "empty command"@,
        },
{
    if argv.len() == 0 {
        return Err(owned("empty command"));
    }
    let mut fixed: Vec<String> = Vec::new();
    fixed.push(owned("pkexec"));
    fixed.push(owned("env"));
    fixed.push(owned("DEBIAN_FRONTEND=noninteractive"));
    fixed.push(owned("LC_ALL=C.UTF-8"));
    assert(views(fixed@) =~= seq![
        "pkexec"@,
        "env"@,
        "DEBIAN_FRONTEND=noninteractive"@,
        "LC_ALL=C.UTF-8"@,
    ]);
    Ok(command_line(fixed, argv))
}

/// The whitelisted repair and cleanup actions, keyed by a stable id; the
/// command lines are fixed and never built from the input.
pub open spec fn action_line(id: Seq<char>) -> Option<Seq<Seq<char>>> {
    if id == "configure-dpkg"@ {
        Some(seq!["dpkg"@, "--configure"@, "-a"@])
    } else if id == "fix-broken"@ {
        Some(seq!["apt-get"@, "-y"@, "-f"@, "install"@])
    } else if id == "autoremove"@ {
        Some(seq!["apt-get"@, "-y"@, "--purge"@, "autoremove"@])
    } else if id == "clean-cache"@ {
        Some(seq!["apt-get"@, "clean"@])
    } else if id == "vacuum-journal"@ {
        // Keeps the last week of logs; systemd rotates the rest out.
        Some(seq!["journalctl"@, "--vacuum-time=7d"@])
    } else {
        None
    }
}

fn is_id(id: &[char], name: &str) -> (b: bool)
    ensures
        b == (id@ == name@),
{
    crate::text::same(id, chars_of(name).as_slice())
}

pub(crate) fn line2(a: &str, b: &str) -> (r: Vec<String>)
    ensures
        views(r@) == seq![a@, b@],
{
    let mut r: Vec<String> = Vec::new();
    r.push(owned(a));
    r.push(owned(b));
    assert(views(r@) =~= seq![a@, b@]);
    r
}

pub(crate) fn line3(a: &str, b: &str, c: &str) -> (r: Vec<String>)
    ensures
        views(r@) == seq![a@, b@, c@],
{
    let mut r = line2(a, b);
    let ghost before = views(r@);
    r.push(owned(c));
    assert(views(r@) =~= before.push(c@));
    assert(views(r@) =~= seq![a@, b@, c@]);
    r
}

pub(crate) fn line4(a: &str, b: &str, c: &str, d: &str) -> (r: Vec<String>)
    ensures
        views(r@) == seq![a@, b@, c@, d@],
{
    let mut r = line3(a, b, c);
    let ghost before = views(r@);
    r.push(owned(d));
    assert(views(r@) =~= before.push(d@));
    assert(views(r@) =~= seq![a@, b@, c@, d@]);
    r
}

/// The command line of a whitelisted action, or `None` for an unknown id.
pub fn action_argv(id: &str) -> (r: Option<Vec<String>>)
    ensures
        match r {
            Some(v) => action_line(id@) == Some(views(v@)),
            None => action_line(id@) is None,
        },
{
    let k = chars_of(id);
    if is_id(k.as_slice(), "configure-dpkg") {
        Some(line3("dpkg", "--configure", "-a"))
    } else if is_id(k.as_slice(), "fix-broken") {
        Some(line4("apt-get", "-y", "-f", "install"))
    } else if is_id(k.as_slice(), "autoremove") {
        Some(line4("apt-get", "-y", "--purge", "autoremove"))
    } else if is_id(k.as_slice(), "clean-cache") {
        Some(line2("apt-get", "clean"))
    } else if is_id(k.as_slice(), "vacuum-journal") {
        Some(line2("journalctl", "--vacuum-time=7d"))
    } else {
        None
    }
}

/// The command line of the action that the user asked for by id, or the
/// message that refuses an unknown id.
pub fn action_request(id: &str) -> (r: Result<Vec<String>, String>)
    ensures
        match r {
            Ok(v) => action_line(id@) == Some(views(v@)),
            Err(e) => action_line(id@) is None && e@ == "unknown action: "@ + id@,
        },
{
    match action_argv(id) {
        Some(v) => Ok(v),
        None => {
            let mut d = chars_of("unknown action: ");
            push_all(&mut d, chars_of(id).as_slice());
            Err(string_of(d.as_slice()))
        },
    }
}

/// The name under which an action's progress is reported.
pub fn action_task(id: &str) -> (r: String)
    ensures
        r@ == "action:"@ + id@,
{
    let mut d = chars_of("action:");
    push_all(&mut d, chars_of(id).as_slice());
    string_of(d.as_slice())
}

/// "<what> failed: <trimmed error output>".
pub fn failure_message(what: &str, stderr: &str) -> (r: String)
    ensures
        r@ == what@ + " failed: "@ + trim(stderr@),
{
    let mut d = chars_of(what);
    push_all(&mut d, chars_of(" failed: ").as_slice());
    push_all(&mut d, trim_chars(chars_of(stderr).as_slice()).as_slice());
    string_of(d.as_slice())
}

/// The error lines kept after each of `ls` was seen in turn.
pub open spec fn tail_after(ls: Seq<Seq<char>>) -> Seq<Seq<char>>
    decreases ls.len(),
{
    if ls.len() == 0 {
        Seq::empty()
    } else {
        keep_last(tail_after(ls.drop_last()).push(ls.last()), ERR_TAIL_LINES as nat)
    }
}

/// Seeing error lines one at a time keeps exactly the last `ERR_TAIL_LINES` of them.
pub proof fn tail_is_last_lines(ls: Seq<Seq<char>>)
    ensures
        tail_after(ls) == keep_last(ls, ERR_TAIL_LINES as nat),
    decreases ls.len(),
{
    if ls.len() > 0 {
        tail_is_last_lines(ls.drop_last());
        keep_last_push(ls.drop_last(), ls.last(), ERR_TAIL_LINES as nat);
        assert(ls.drop_last().push(ls.last()) =~= ls);
    } else {
        assert(keep_last(ls, ERR_TAIL_LINES as nat) =~= Seq::<Seq<char>>::empty());
    }
}

/// Whatever the id, an action's command line is one of the five fixed ones:
/// nothing of the id goes into it.
pub proof fn actions_are_fixed(id: Seq<char>)
    ensures
        action_line(id) is None || action_line(id) == Some(seq!["dpkg"@, "--configure"@, "-a"@])
            || action_line(id) == Some(seq!["apt-get"@, "-y"@, "-f"@, "install"@]) || action_line(
            id,
        ) == Some(seq!["apt-get"@, "-y"@, "--purge"@, "autoremove"@]) || action_line(id) == Some(
            seq!["apt-get"@, "clean"@],
        ) || action_line(id) == Some(seq!["journalctl"@, "--vacuum-time=7d"@]),
{
}

} // verus!
