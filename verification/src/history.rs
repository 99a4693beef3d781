//! Update history from apt's transaction log.
//!
//! Every apt/dpkg transaction is appended to the log as a blank-line
//! separated block of "Key: value" lines. This module turns the text of
//! the log into entries; reading the files is left to the caller.
use vstd::prelude::*;
use crate::text::{
    chars_of, cviews, join, join_chars, lemma_split_on_len, lines, lines_of, push_all, same,
    slice_copy, split_on, split_on_chars, split_once, split_once_chars, split_str,
    split_str_chars, string_of, trim, trim_chars, trim_end_char, trim_end_char_chars, views,
    matches_at, split_from,
};

verus! {

broadcast use vstd::string::group_string_axioms;

#[derive(Debug, Clone)]
pub struct HistoryEntry {
    pub date: String,
    pub command: String,
    pub requested_by: String,
    /// Rendered as "name old → new".
    pub upgraded: Vec<String>,
    /// Rendered as "name version".
    pub installed: Vec<String>,
    pub removed: Vec<String>,
}

/// What a history entry holds, as character sequences.
pub struct HistoryRecord {
    pub date: Seq<char>,
    pub command: Seq<char>,
    pub requested_by: Seq<char>,
    pub upgraded: Seq<Seq<char>>,
    pub installed: Seq<Seq<char>>,
    pub removed: Seq<Seq<char>>,
}

impl View for HistoryEntry {
    type V = HistoryRecord;

    open spec fn view(&self) -> HistoryRecord {
        HistoryRecord {
            date: self.date@,
            command: self.command@,
            requested_by: self.requested_by@,
            upgraded: views(self.upgraded@),
            installed: views(self.installed@),
            removed: views(self.removed@),
        }
    }
}

/// The views of a sequence of entries.
pub open spec fn records(v: Seq<HistoryEntry>) -> Seq<HistoryRecord> {
    v.map_values(|e: HistoryEntry| e@)
}

/// One package of a list value, from a chunk such as `foo:amd64 (1.0, 1.1`
/// (the closing parenthesis already removed): the name without its
/// architecture, a space, and the versions without ", automatic"; an upgrade
/// `(old, new)` renders as "old → new". A chunk without " (" gives nothing.
pub open spec fn package_entry(chunk: Seq<char>, upgrade: bool) -> Option<Seq<char>> {
    match split_once(chunk, " ("@) {
        None => None,
        Some((name_arch, versions_raw)) => {
            let name = split_on(name_arch, ':')[0];
            let versions = join(split_str(versions_raw, ", automatic"@), Seq::empty());
            if upgrade {
                match split_once(versions, ", "@) {
                    Some((old, new)) => if new.len() == 0 {
                        Some(name + seq![' '] + old)
                    } else {
                        Some(name + seq![' '] + old + " → "@ + new)
                    },
                    None => Some(name + seq![' '] + versions),
                }
            } else {
                Some(name + seq![' '] + versions)
            }
        },
    }
}

/// The entries of the chunks, each chunk first stripped of trailing `)`.
pub open spec fn package_entries(chunks: Seq<Seq<char>>, upgrade: bool) -> Seq<Seq<char>>
    decreases chunks.len(),
{
    if chunks.len() == 0 {
        Seq::empty()
    } else {
        let done = package_entries(chunks.drop_last(), upgrade);
        match package_entry(trim_end_char(chunks.last(), ')'), upgrade) {
            Some(e) => done.push(e),
            None => done,
        }
    }
}

/// A package-list value such as `foo:amd64 (1.0, 1.1), bar:amd64 (2.0, automatic)`
/// split at "), " into entries.
pub open spec fn packages_of(value: Seq<char>, upgrade: bool) -> Seq<Seq<char>> {
    package_entries(split_str(value, "), "@), upgrade)
}

fn package_entry_chars(chunk: &[char], upgrade: bool) -> (r: Option<Vec<char>>)
    ensures
        match r {
            Some(e) => package_entry(chunk@, upgrade) == Some(e@),
            None => package_entry(chunk@, upgrade) is None,
        },
{
    let open_paren = chars_of(" (");
    match split_once_chars(chunk, open_paren.as_slice()) {
        None => None,
        Some((name_arch, versions_raw)) => {
            let parts = split_on_chars(name_arch.as_slice(), ':');
            proof {
                lemma_split_on_len(name_arch@, ':');
            }
            assert(parts@[0]@ == split_on(name_arch@, ':')[0]);
            let automatic = chars_of(", automatic");
            let pieces = split_str_chars(versions_raw.as_slice(), automatic.as_slice());
            let nothing: Vec<char> = Vec::new();
            let versions = join_chars(&pieces, nothing.as_slice());
            assert(nothing@ =~= Seq::<char>::empty());
            let mut out = slice_copy(parts[0].as_slice(), 0, parts[0].len());
            assert(out@ =~= parts@[0]@);
            out.push(' ');
            if upgrade {
                let comma = chars_of(", ");
                match split_once_chars(versions.as_slice(), comma.as_slice()) {
                    Some((old, new)) => {
                        push_all(&mut out, old.as_slice());
                        if new.len() > 0 {
                            let arrow = chars_of(" → ");
                            push_all(&mut out, arrow.as_slice());
                            push_all(&mut out, new.as_slice());
                        }
                    },
                    None => {
                        push_all(&mut out, versions.as_slice());
                    },
                }
            } else {
                push_all(&mut out, versions.as_slice());
            }
            Some(out)
        },
    }
}

/// Splits a package-list value like
/// `foo:amd64 (1.0, 1.1), bar:amd64 (2.0, automatic)` into entries.
pub fn parse_packages(value: &str, upgrade: bool) -> (r: Vec<String>)
    ensures
        views(r@) == packages_of(value@, upgrade),
{
    let v = chars_of(value);
    let sep = chars_of("), ");
    let chunks = split_str_chars(v.as_slice(), sep.as_slice());
    let ghost cs = split_str(value@, "), "@);
    assert(cviews(chunks@) == cs);
    let mut out: Vec<String> = Vec::new();
    let mut i: usize = 0;
    assert(cs.take(0) =~= Seq::<Seq<char>>::empty());
    while i < chunks.len()
        invariant
            i <= chunks@.len(),
            cviews(chunks@) == cs,
            views(out@) == package_entries(cs.take(i as int), upgrade),
        decreases chunks.len() - i,
    {
        assert(cs.take(i + 1).drop_last() =~= cs.take(i as int));
        assert(cs.take(i + 1).last() == chunks@[i as int]@);
        let chunk = trim_end_char_chars(chunks[i].as_slice(), ')');
        match package_entry_chars(chunk.as_slice(), upgrade) {
            Some(e) => {
                let ghost before = out@;
                out.push(string_of(e.as_slice()));
                assert(views(out@) =~= views(before).push(e@));
            },
            None => {},
        }
        i += 1;
    }
    assert(cs.take(chunks@.len() as int) =~= cs);
    out
}

/// A record with every field empty.
pub open spec fn blank_record() -> HistoryRecord {
    HistoryRecord {
        date: Seq::empty(),
        command: Seq::empty(),
        requested_by: Seq::empty(),
        upgraded: Seq::empty(),
        installed: Seq::empty(),
        removed: Seq::empty(),
    }
}

/// The record after one "Key: value" line: `Start-Date`, `Commandline` and
/// `Requested-By` set a field to the trimmed value; `Upgrade` and `Install`
/// set a list; `Reinstall` adds to the installed list; `Remove` and `Purge`
/// add to the removed list. Other lines change nothing.
pub open spec fn apply_line(e: HistoryRecord, line: Seq<char>) -> HistoryRecord {
    match split_once(line, ": "@) {
        None => e,
        Some((key, value)) => if key == "Start-Date"@ {
            HistoryRecord { date: trim(value), ..e }
        } else if key == "Commandline"@ {
            HistoryRecord { command: trim(value), ..e }
        } else if key == "Requested-By"@ {
            HistoryRecord { requested_by: trim(value), ..e }
        } else if key == "Upgrade"@ {
            HistoryRecord { upgraded: packages_of(value, true), ..e }
        } else if key == "Install"@ {
            HistoryRecord { installed: packages_of(value, false), ..e }
        } else if key == "Reinstall"@ {
            HistoryRecord { installed: e.installed + packages_of(value, false), ..e }
        } else if key == "Remove"@ || key == "Purge"@ {
            HistoryRecord { removed: e.removed + packages_of(value, false), ..e }
        } else {
            e
        },
    }
}

/// The record that a block's lines describe.
pub open spec fn block_record(ls: Seq<Seq<char>>) -> HistoryRecord
    decreases ls.len(),
{
    if ls.len() == 0 {
        blank_record()
    } else {
        apply_line(block_record(ls.drop_last()), ls.last())
    }
}

/// A record is kept when it has a date and changed at least one package.
pub open spec fn keeps(e: HistoryRecord) -> bool {
    e.date.len() > 0 && (e.upgraded.len() > 0 || e.installed.len() > 0 || e.removed.len() > 0)
}

/// The kept records of the blocks, in order.
pub open spec fn block_records(blocks: Seq<Seq<char>>) -> Seq<HistoryRecord>
    decreases blocks.len(),
{
    if blocks.len() == 0 {
        Seq::empty()
    } else {
        let done = block_records(blocks.drop_last());
        let e = block_record(lines(blocks.last()));
        if keeps(e) {
            done.push(e)
        } else {
            done
        }
    }
}

/// The entries that the text of a log holds, oldest first.
pub open spec fn log_records(content: Seq<char>) -> Seq<HistoryRecord> {
    block_records(split_str(content, "\n\n"@))
}

fn is_key(key: &[char], name: &str) -> (b: bool)
    ensures
        b == (key@ == name@),
{
    let n = chars_of(name);
    same(key, n.as_slice())
}

fn new_entry() -> (e: HistoryEntry)
    ensures
        e@ == blank_record(),
{
    let e = HistoryEntry {
        date: String::new(),
        command: String::new(),
        requested_by: String::new(),
        upgraded: Vec::new(),
        installed: Vec::new(),
        removed: Vec::new(),
    };
    assert(views(e.upgraded@) =~= Seq::<Seq<char>>::empty());
    assert(views(e.installed@) =~= Seq::<Seq<char>>::empty());
    assert(views(e.removed@) =~= Seq::<Seq<char>>::empty());
    e
}

/// Appends `more` to the list `v`.
fn extend_strings(v: &mut Vec<String>, more: Vec<String>)
    ensures
        views(final(v)@) == views(old(v)@) + views(more@),
{
    let mut more = more;
    let ghost m = more@;
    v.append(&mut more);
    assert(views(v@) =~= views(old(v)@) + views(m));
}

fn apply_line_to(e: &mut HistoryEntry, line: &[char])
    ensures
        final(e)@ == apply_line(old(e)@, line@),
{
    let sep = chars_of(": ");
    match split_once_chars(line, sep.as_slice()) {
        None => {},
        Some((key, value)) => {
            if is_key(key.as_slice(), "Start-Date") {
                e.date = string_of(trim_chars(value.as_slice()).as_slice());
            } else if is_key(key.as_slice(), "Commandline") {
                e.command = string_of(trim_chars(value.as_slice()).as_slice());
            } else if is_key(key.as_slice(), "Requested-By") {
                e.requested_by = string_of(trim_chars(value.as_slice()).as_slice());
            } else if is_key(key.as_slice(), "Upgrade") {
                let text = string_of(value.as_slice());
                e.upgraded = parse_packages(text.as_str(), true);
            } else if is_key(key.as_slice(), "Install") {
                let text = string_of(value.as_slice());
                e.installed = parse_packages(text.as_str(), false);
            } else if is_key(key.as_slice(), "Reinstall") {
                let text = string_of(value.as_slice());
                let more = parse_packages(text.as_str(), false);
                extend_strings(&mut e.installed, more);
            } else if is_key(key.as_slice(), "Remove") || is_key(key.as_slice(), "Purge") {
                let text = string_of(value.as_slice());
                let more = parse_packages(text.as_str(), false);
                extend_strings(&mut e.removed, more);
            }
        },
    }
}

/// Appends the entries of one log's text to `entries`, oldest first.
pub fn parse_log(content: &str, entries: &mut Vec<HistoryEntry>)
    ensures
        records(final(entries)@) == records(old(entries)@) + log_records(content@),
{
    let text = chars_of(content);
    let sep = chars_of("\n\n");
    let blocks = split_str_chars(text.as_slice(), sep.as_slice());
    let ghost bs = split_str(content@, "\n\n"@);
    assert(cviews(blocks@) == bs);
    let mut i: usize = 0;
    assert(bs.take(0) =~= Seq::<Seq<char>>::empty());
    assert(records(entries@) =~= records(old(entries)@) + block_records(bs.take(0)));
    while i < blocks.len()
        invariant
            i <= blocks@.len(),
            cviews(blocks@) == bs,
            records(entries@) == records(old(entries)@) + block_records(bs.take(i as int)),
        decreases blocks.len() - i,
    {
        assert(bs.take(i + 1).drop_last() =~= bs.take(i as int));
        assert(bs.take(i + 1).last() == blocks@[i as int]@);
        let ls = lines_of(blocks[i].as_slice());
        let ghost lv = lines(blocks@[i as int]@);
        assert(cviews(ls@) == lv);
        let mut entry = new_entry();
        let mut j: usize = 0;
        assert(lv.take(0) =~= Seq::<Seq<char>>::empty());
        while j < ls.len()
            invariant
                j <= ls@.len(),
                cviews(ls@) == lv,
                entry@ == block_record(lv.take(j as int)),
            decreases ls.len() - j,
        {
            assert(lv.take(j + 1).drop_last() =~= lv.take(j as int));
            assert(lv.take(j + 1).last() == ls@[j as int]@);
            apply_line_to(&mut entry, ls[j].as_slice());
            j += 1;
        }
        assert(lv.take(ls@.len() as int) =~= lv);
        let has_changes = entry.upgraded.len() > 0 || entry.installed.len() > 0
            || entry.removed.len() > 0;
        if !entry.date.as_str().is_empty() && has_changes {
            let ghost before = entries@;
            let ghost er = entry@;
            entries.push(entry);
            assert(records(entries@) =~= records(before).push(er));
        }
        i += 1;
    }
    assert(bs.take(blocks@.len() as int) =~= bs);
}

/// Latest first, at most `limit` entries: the entries are read oldest first,
/// then reversed and cut to the limit.
pub fn latest_first(entries: Vec<HistoryEntry>, limit: usize) -> (r: Vec<HistoryEntry>)
    ensures
        records(r@) == records(entries@).reverse().take(
            if limit < entries@.len() { limit as int } else { entries@.len() as int },
        ),
{
    let mut rest = entries;
    let mut out: Vec<HistoryEntry> = Vec::new();
    let ghost all = records(entries@);
    while rest.len() > 0
        invariant
            all == records(entries@),
            records(rest@) == all.take(rest@.len() as int),
            records(out@) == all.reverse().take(all.len() - rest@.len()),
            rest@.len() <= all.len(),
        decreases rest.len(),
    {
        let ghost before_rest = rest@;
        let ghost before_out = out@;
        let e = rest.pop().unwrap();
        let ghost ev = e@;
        assert(records(before_rest)[rest@.len() as int] == ev);
        assert(all.take(before_rest.len() as int)[rest@.len() as int] == all[rest@.len() as int]);
        out.push(e);
        assert(records(out@) =~= records(before_out).push(ev));
        assert(records(rest@) =~= all.take(rest@.len() as int));
        assert(records(out@) =~= all.reverse().take(all.len() - rest@.len()));
    }
    out.truncate(limit);
    assert(records(out@) =~= all.reverse().take(
        if limit < entries@.len() { limit as int } else { entries@.len() as int },
    ));
    out
}

/// Every entry read from a log has a date and changed at least one package.
pub proof fn log_entries_have_changes(content: Seq<char>)
    ensures
        forall|i: int|
            0 <= i < log_records(content).len() ==> keeps(#[trigger] log_records(content)[i]),
{
    blocks_have_changes(split_str(content, "\n\n"@));
}

proof fn blocks_have_changes(blocks: Seq<Seq<char>>)
    ensures
        forall|i: int| 0 <= i < block_records(blocks).len() ==> keeps(#[trigger] block_records(blocks)[i]),
    decreases blocks.len(),
{
    if blocks.len() > 0 {
        let done = block_records(blocks.drop_last());
        blocks_have_changes(blocks.drop_last());
        assert forall|i: int| 0 <= i < block_records(blocks).len() implies keeps(
            #[trigger] block_records(blocks)[i],
        ) by {
            if i < done.len() {
                assert(block_records(blocks)[i] == done[i]);
            }
        }
    }
}

/// Within `a`, splitting `a + p + b` at `p = "\n\n"` finds what splitting `a`
/// alone finds, then the joining `p`, when `a` does not end with a newline
/// (so no match starts in `a` and ends in `p`).
proof fn lemma_split_front(a: Seq<char>, p: Seq<char>, b: Seq<char>, i: int, start: int)
    requires
        p.len() == 2,
        p[0] == '\n',
        p[1] == '\n',
        a.len() == 0 || a.last() != '\n',
        0 <= start <= i <= a.len(),
    ensures
        split_from(a + p + b, p, i, start) == split_from(a, p, i, start) + split_from(
            a + p + b,
            p,
            a.len() + 2int,
            a.len() + 2int,
        ),
    decreases a.len() + 1 - i,
{
    let s = a + p + b;
    let n = a.len() as int;
    let rest = split_from(s, p, n + 2, n + 2);
    if i + 2 > n {
        if i == n {
            assert(s.subrange(n, n + 2) =~= p);
            assert(s.subrange(start, n) =~= a.subrange(start, n));
        } else {
            assert(s[n - 1] == a.last());
            assert(s.subrange(i, i + 2)[0] == s[i]);
            lemma_split_front(a, p, b, i + 1, start);
        }
    } else {
        assert(s.subrange(i, i + 2) =~= a.subrange(i, i + 2));
        if matches_at(a, p, i) {
            lemma_split_front(a, p, b, i + 2, i + 2);
            assert(s.subrange(start, i) =~= a.subrange(start, i));
            assert(seq![s.subrange(start, i)] + split_from(s, p, i + 2, i + 2) =~= seq![
                a.subrange(start, i),
            ] + split_from(a, p, i + 2, i + 2) + rest);
        } else {
            lemma_split_front(a, p, b, i + 1, start);
        }
    }
}

/// Splitting `c + b` past `c` is splitting `b`.
proof fn lemma_split_shift(c: Seq<char>, b: Seq<char>, p: Seq<char>, i: int, start: int)
    requires
        p.len() > 0,
        0 <= start <= i <= b.len() + 1,
        start <= b.len(),
    ensures
        split_from(c + b, p, c.len() as int + i, c.len() as int + start) == split_from(b, p, i, start),
    decreases b.len() + 1 - i,
{
    let s = c + b;
    let n = c.len() as int;
    if i > b.len() || i + p.len() > b.len() {
        assert(s.subrange(n + start, s.len() as int) =~= b.subrange(start, b.len() as int));
    } else {
        assert(s.subrange(n + i, n + i + p.len()) =~= b.subrange(i, i + p.len()));
        if matches_at(b, p, i) {
            lemma_split_shift(c, b, p, i + p.len(), i + p.len());
            assert(s.subrange(n + start, n + i) =~= b.subrange(start, i));
        } else {
            lemma_split_shift(c, b, p, i + 1, start);
        }
    }
}

proof fn lemma_block_records_append(x: Seq<Seq<char>>, y: Seq<Seq<char>>)
    ensures
        block_records(x + y) == block_records(x) + block_records(y),
    decreases y.len(),
{
    if y.len() == 0 {
        assert(x + y =~= x);
        assert(block_records(x) + block_records(y) =~= block_records(x));
    } else {
        lemma_block_records_append(x, y.drop_last());
        assert((x + y).drop_last() =~= x + y.drop_last());
        assert((x + y).last() == y.last());
        let e = block_record(lines(y.last()));
        if keeps(e) {
            assert(block_records(x) + block_records(y.drop_last()).push(e) =~= (block_records(x)
                + block_records(y.drop_last())).push(e));
        }
    }
}

/// Two logs joined by a blank line give the entries of the first, then those
/// of the second, when the first does not end with a newline: reading the
/// rotated log and then the current one is reading them joined.
pub proof fn joined_logs_parse_in_turn(a: Seq<char>, b: Seq<char>)
    requires
        a.len() == 0 || a.last() != '\n',
    ensures
        log_records(a + "\n\n"@ + b) == log_records(a) + log_records(b),
{
    reveal_strlit("\n\n");
    let p = "\n\n"@;
    assert(p.len() == 2 && p[0] == '\n' && p[1] == '\n');
    let s = a + p + b;
    lemma_split_front(a, p, b, 0, 0);
    assert(s =~= (a + p) + b);
    lemma_split_shift(a + p, b, p, 0, 0);
    assert(split_str(s, p) == split_str(a, p) + split_str(b, p));
    lemma_block_records_append(split_str(a, p), split_str(b, p));
}

} // verus!
