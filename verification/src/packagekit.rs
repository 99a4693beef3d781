//! PackageKit: what the `Package`, `Percentage`, `Status`, `RequireRestart`,
//! `ErrorCode` and `Finished` signals of a transaction mean. Talking to
//! PackageKit over D-Bus is left to the caller, which hands each signal to
//! the functions here.
use vstd::prelude::*;
use crate::text::{
    chars_of, cviews, dec, dec_chars, lemma_split_on_len, owned, push_all, split_on,
    split_on_chars, string_of,
};

verus! {

broadcast use vstd::string::group_string_axioms;

/// PK_FILTER_ENUM_NONE: PackageKit filters are a bitfield.
pub const FILTER_NONE: u64 = 2;

/// PK_TRANSACTION_FLAG_ENUM_ONLY_TRUSTED.
pub const FLAG_ONLY_TRUSTED: u64 = 2;

/// PK_EXIT_ENUM_SUCCESS.
pub const EXIT_SUCCESS: u32 = 1;

/// PK_RESTART_ENUM_SYSTEM.
pub const RESTART_SYSTEM: u32 = 4;

/// PK_RESTART_ENUM_SECURITY_SYSTEM.
pub const RESTART_SECURITY_SYSTEM: u32 = 6;

/// The `Percentage` property reports 101 when unknown.
pub const PERCENTAGE_UNKNOWN: u32 = 101;

#[derive(Debug, Clone)]
pub struct Update {
    pub package_id: String,
    pub name: String,
    pub version: String,
    pub summary: String,
    pub severity: String,
    /// Raw PK_INFO_ENUM value, kept for diagnostics.
    pub info: u32,
}

#[derive(Debug, Clone)]
pub struct InstallResult {
    pub needs_restart: bool,
}

/// The severity that a PK_INFO_ENUM value stands for. Since PackageKit 1.3
/// the high 16 bits carry an update-severity enum; when they are 0, the low
/// 16 bits (the base info/action enum) are read instead.
pub open spec fn severity_of(info: u32) -> Seq<char> {
    let severity = info / 65536;
    let base = info % 65536;
    let code = if severity != 0 {
        severity
    } else {
        base
    };
    if code == 2 {
        "normal"@  // AVAILABLE: backends that don't classify report this

    } else if code == 3 {
        "low"@
    } else if code == 4 {
        "enhancement"@
    } else if code == 5 {
        "normal"@
    } else if code == 6 {
        "bugfix"@
    } else if code == 7 {
        "important"@
    } else if code == 8 {
        "security"@
    } else if code == 9 {
        "blocked"@
    } else if code == 26 {
        "critical"@
    } else if 27 <= code <= 30 {
        "normal"@  // action codes (INSTALL/REMOVE/OBSOLETE/DOWNGRADE), not severities

    } else {
        "unknown"@
    }
}

pub fn severity_from_pk_info(info: u32) -> (s: &'static str)
    ensures
        s@ == severity_of(info),
{
    let severity = info >> 16;
    let base = info & 0xFFFF;
    assert(severity == info / 65536 && base == info % 65536) by (bit_vector)
        requires
            severity == info >> 16,
            base == info & 0xFFFF,
    ;
    let code = if severity != 0 {
        severity
    } else {
        base
    };
    if code == 2 {
        "normal"
    } else if code == 3 {
        "low"
    } else if code == 4 {
        "enhancement"
    } else if code == 5 {
        "normal"
    } else if code == 6 {
        "bugfix"
    } else if code == 7 {
        "important"
    } else if code == 8 {
        "security"
    } else if code == 9 {
        "blocked"
    } else if code == 26 {
        "critical"
    } else if 27 <= code && code <= 30 {
        "normal"
    } else {
        "unknown"
    }
}

/// The label of a PK_STATUS_ENUM value.
pub open spec fn status_text(status: u32) -> Seq<char> {
    if status == 2 {
        "Waiting…"@
    } else if status == 3 {
        "Starting…"@
    } else if status == 4 {
        "Preparing…"@
    } else if status == 5 {
        "Querying…"@
    } else if status == 6 {
        "Fetching package details…"@
    } else if status == 8 {
        "Removing…"@
    } else if status == 9 {
        "Downloading…"@
    } else if status == 10 {
        "Installing…"@
    } else if status == 11 {
        "Refreshing package lists…"@
    } else if status == 12 {
        "Updating…"@
    } else if status == 13 {
        "Cleaning up…"@
    } else if status == 14 {
        "Resolving dependencies…"@
    } else if status == 21 {
        "Waiting for authentication…"@
    } else if status == 22 {
        "Waiting in queue…"@
    } else {
        "Working…"@
    }
}

pub fn status_label(status: u32) -> (s: &'static str)
    ensures
        s@ == status_text(status),
{
    if status == 2 {
        "Waiting…"
    } else if status == 3 {
        "Starting…"
    } else if status == 4 {
        "Preparing…"
    } else if status == 5 {
        "Querying…"
    } else if status == 6 {
        "Fetching package details…"
    } else if status == 8 {
        "Removing…"
    } else if status == 9 {
        "Downloading…"
    } else if status == 10 {
        "Installing…"
    } else if status == 11 {
        "Refreshing package lists…"
    } else if status == 12 {
        "Updating…"
    } else if status == 13 {
        "Cleaning up…"
    } else if status == 14 {
        "Resolving dependencies…"
    } else if status == 21 {
        "Waiting for authentication…"
    } else if status == 22 {
        "Waiting in queue…"
    } else {
        "Working…"
    }
}

/// What an update holds, as character sequences.
pub struct UpdateView {
    pub package_id: Seq<char>,
    pub name: Seq<char>,
    pub version: Seq<char>,
    pub summary: Seq<char>,
    pub severity: Seq<char>,
    pub info: u32,
}

impl View for Update {
    type V = UpdateView;

    open spec fn view(&self) -> UpdateView {
        UpdateView {
            package_id: self.package_id@,
            name: self.name@,
            version: self.version@,
            summary: self.summary@,
            severity: self.severity@,
            info: self.info,
        }
    }
}

pub open spec fn update_views(v: Seq<Update>) -> Seq<UpdateView> {
    v.map_values(|u: Update| u@)
}

/// The update that a `Package` signal reports: a package id is
/// "name;version;arch;origin".
pub open spec fn update_of(info: u32, package_id: Seq<char>, summary: Seq<char>) -> UpdateView {
    let parts = split_on(package_id, ';');
    UpdateView {
        package_id,
        name: parts[0],
        version: if parts.len() > 1 {
            parts[1]
        } else {
            Seq::empty()
        },
        summary,
        severity: severity_of(info),
        info,
    }
}

pub fn update_from_package(info: u32, package_id: &str, summary: &str) -> (u: Update)
    ensures
        u@ == update_of(info, package_id@, summary@),
{
    let parts = split_on_chars(chars_of(package_id).as_slice(), ';');
    proof {
        lemma_split_on_len(package_id@, ';');
    }
    let ghost pv = cviews(parts@);
    assert(pv[0] == parts@[0]@);
    let version = if parts.len() > 1 {
        assert(pv[1] == parts@[1]@);
        string_of(parts[1].as_slice())
    } else {
        String::new()
    };
    Update {
        name: string_of(parts[0].as_slice()),
        version,
        package_id: owned(package_id),
        summary: owned(summary),
        severity: owned(severity_from_pk_info(info)),
        info,
    }
}

/// The name of the package in a package id: the part before the first `;`.
pub fn package_name(package_id: &str) -> (r: String)
    ensures
        r@ == split_on(package_id@, ';')[0],
{
    let parts = split_on_chars(chars_of(package_id).as_slice(), ';');
    proof {
        lemma_split_on_len(package_id@, ';');
    }
    assert(cviews(parts@)[0] == parts@[0]@);
    string_of(parts[0].as_slice())
}

/// "PackageKit error <code>: <details>".
pub fn error_message(code: u32, details: &str) -> (r: String)
    ensures
        r@ == "PackageKit error "@ + dec(code as nat) + ": "@ + details@,
{
    let mut d = chars_of("PackageKit error ");
    push_all(&mut d, dec_chars(code as u64).as_slice());
    push_all(&mut d, chars_of(": ").as_slice());
    push_all(&mut d, chars_of(details).as_slice());
    string_of(d.as_slice())
}

// ---- Ordering updates by name ----

/// `a <= b` in the order of `String`: lexicographic by bytes, which for
/// UTF-8 is lexicographic by code point.
pub open spec fn name_le(a: Seq<char>, b: Seq<char>) -> bool
    decreases a.len(),
{
    if a.len() == 0 {
        true
    } else if b.len() == 0 {
        false
    } else if a[0] != b[0] {
        a[0] < b[0]
    } else {
        name_le(a.drop_first(), b.drop_first())
    }
}

/// `x` placed into `sorted` after every update whose name is not greater.
pub open spec fn insert_by_name(sorted: Seq<UpdateView>, x: UpdateView) -> Seq<UpdateView>
    decreases sorted.len(),
{
    if sorted.len() == 0 {
        seq![x]
    } else if name_le(sorted.last().name, x.name) {
        sorted.push(x)
    } else {
        insert_by_name(sorted.drop_last(), x).push(sorted.last())
    }
}

/// The updates in a stable order by name (`sort_by` on the names): updates
/// with equal names keep their relative order.
pub open spec fn sorted_by_name(s: Seq<UpdateView>) -> Seq<UpdateView>
    decreases s.len(),
{
    if s.len() == 0 {
        Seq::empty()
    } else {
        insert_by_name(sorted_by_name(s.drop_last()), s.last())
    }
}

fn name_le_chars(a: &[char], b: &[char]) -> (r: bool)
    ensures
        r == name_le(a@, b@),
{
    let mut i: usize = 0;
    assert(a@.skip(0) =~= a@ && b@.skip(0) =~= b@);
    while i < a.len() && i < b.len() && a[i] == b[i]
        invariant
            i <= a@.len(),
            i <= b@.len(),
            name_le(a@, b@) == name_le(a@.skip(i as int), b@.skip(i as int)),
        decreases a.len() - i,
    {
        assert(a@.skip(i as int).drop_first() =~= a@.skip(i + 1));
        assert(b@.skip(i as int).drop_first() =~= b@.skip(i + 1));
        i += 1;
    }
    if i == a.len() {
        true
    } else if i == b.len() {
        false
    } else {
        assert(a@.skip(i as int)[0] == a@[i as int]);
        assert(b@.skip(i as int)[0] == b@[i as int]);
        a[i] < b[i]
    }
}

proof fn lemma_insert_at(s: Seq<UpdateView>, x: UpdateView, p: int)
    requires
        0 <= p <= s.len(),
        p == 0 || name_le(s[p - 1].name, x.name),
        forall|k: int| p <= k < s.len() ==> !name_le(#[trigger] s[k].name, x.name),
    ensures
        insert_by_name(s, x) == s.take(p) + seq![x] + s.skip(p),
    decreases s.len(),
{
    if s.len() == p {
        if p == 0 {
            assert(s.take(p) + seq![x] + s.skip(p) =~= seq![x]);
        } else {
            assert(s.take(p) + seq![x] + s.skip(p) =~= s.push(x));
        }
    } else {
        assert(!name_le(s[s.len() - 1].name, x.name));
        let d = s.drop_last();
        assert forall|k: int| p <= k < d.len() implies !name_le(#[trigger] d[k].name, x.name) by {
            assert(d[k] == s[k]);
        }
        lemma_insert_at(d, x, p);
        assert((d.take(p) + seq![x] + d.skip(p)).push(s.last()) =~= s.take(p) + seq![x] + s.skip(
            p,
        ));
    }
}

/// Orders the updates by name, keeping the order of equal names.
pub fn sort_by_name(updates: Vec<Update>) -> (r: Vec<Update>)
    ensures
        update_views(r@) == sorted_by_name(update_views(updates@)),
{
    let ghost all = update_views(updates@);
    // Reverse once, so that popping yields the updates in their order.
    let mut rest = updates;
    let mut backwards: Vec<Update> = Vec::new();
    while rest.len() > 0
        invariant
            all == update_views(updates@),
            update_views(rest@) == all.take(rest@.len() as int),
            update_views(backwards@) == all.skip(rest@.len() as int).reverse(),
            rest@.len() <= all.len(),
        decreases rest.len(),
    {
        let ghost before_rest = rest@;
        let ghost before_back = backwards@;
        let u = rest.pop().unwrap();
        let ghost uv = u@;
        assert(update_views(before_rest)[rest@.len() as int] == uv);
        assert(all.take(before_rest.len() as int)[rest@.len() as int] == all[rest@.len() as int]);
        backwards.push(u);
        assert(update_views(backwards@) =~= update_views(before_back).push(uv));
        assert(update_views(rest@) =~= all.take(rest@.len() as int));
        assert(update_views(backwards@) =~= all.skip(rest@.len() as int).reverse());
    }
    let mut r: Vec<Update> = Vec::new();
    assert(all.take(0) =~= Seq::<UpdateView>::empty());
    while backwards.len() > 0
        invariant
            all == update_views(updates@),
            backwards@.len() <= all.len(),
            update_views(backwards@) == all.skip(all.len() - backwards@.len()).reverse(),
            update_views(r@) == sorted_by_name(all.take(all.len() - backwards@.len())),
        decreases backwards.len(),
    {
        let ghost done = all.len() - backwards@.len();
        let ghost before_back = backwards@;
        let u = backwards.pop().unwrap();
        let ghost uv = u@;
        assert(update_views(before_back)[backwards@.len() as int] == uv);
        assert(all.skip(done).reverse()[backwards@.len() as int] == all[done]);
        assert(update_views(backwards@) =~= update_views(before_back).drop_last());
        assert(all.skip(done).reverse().drop_last() =~= all.skip(done + 1).reverse());
        assert(update_views(backwards@) =~= all.skip(done + 1).reverse());
        assert(all.take(done + 1).drop_last() =~= all.take(done));
        let key = chars_of(u.name.as_str());
        let mut p = r.len();
        let ghost sv = update_views(r@);
        while p > 0 && !name_le_chars(chars_of(r[p - 1].name.as_str()).as_slice(), key.as_slice())
            invariant
                p <= r@.len(),
                sv == update_views(r@),
                key@ == uv.name,
                forall|k: int| p <= k < sv.len() ==> !name_le(#[trigger] sv[k].name, uv.name),
            decreases p,
        {
            assert(sv[p - 1] == r@[p - 1]@);
            p -= 1;
        }
        assert(p > 0 ==> sv[p - 1] == r@[p - 1]@);
        proof {
            lemma_insert_at(sv, uv, p as int);
        }
        r.insert(p, u);
        assert(update_views(r@) =~= sv.take(p as int) + seq![uv] + sv.skip(p as int));
    }
    assert(all.take(all.len() as int) =~= all);
    r
}

// ---- Listing updates ----

/// A signal of a transaction that lists updates (or refreshes the cache).
#[derive(Debug, Clone)]
pub enum ListEvent {
    /// A `Package` signal: one pending update.
    Package { info: u32, package_id: String, summary: String },
    /// An `ErrorCode` signal.
    ErrorCode { code: u32, details: String },
    /// The `Finished` signal, or the end of the stream of `Package` signals.
    Finished,
}

/// What to do after a listing signal.
#[derive(Debug)]
pub enum ListStep {
    /// Wait for the next signal.
    Continue,
    /// The listing is complete.
    Done,
    /// The listing failed with this message.
    Fail(String),
}

/// A `Package` signal adds its update to the list; an `ErrorCode` signal
/// ends the listing with "PackageKit error <code>: <details>"; `Finished`
/// ends it with the list as it is.
pub fn list_step(updates: &mut Vec<Update>, event: ListEvent) -> (step: ListStep)
    ensures
        match event {
            ListEvent::Package { info, package_id, summary } => {
                &&& update_views(final(updates)@) == update_views(old(updates)@).push(
                    update_of(info, package_id@, summary@),
                )
                &&& step is Continue
            },
            ListEvent::ErrorCode { code, details } => {
                &&& update_views(final(updates)@) == update_views(old(updates)@)
                &&& step matches ListStep::Fail(e)
                &&& e@ == "PackageKit error "@ + dec(code as nat) + ": "@ + details@
            },
            ListEvent::Finished => {
                &&& update_views(final(updates)@) == update_views(old(updates)@)
                &&& step is Done
            },
        },
{
    match event {
        ListEvent::Package { info, package_id, summary } => {
            let u = update_from_package(info, package_id.as_str(), summary.as_str());
            let ghost before = updates@;
            let ghost uv = u@;
            updates.push(u);
            assert(update_views(updates@) =~= update_views(before).push(uv));
            ListStep::Continue
        },
        ListEvent::ErrorCode { code, details } => ListStep::Fail(
            error_message(code, details.as_str()),
        ),
        ListEvent::Finished => ListStep::Done,
    }
}

// ---- Installing updates ----

/// Refuses an install with nothing selected.
pub fn check_selection(package_ids: &Vec<String>) -> (r: Result<(), String>)
    ensures
        match r {
            Ok(()) => package_ids@.len() > 0,
            Err(e) => package_ids@.len() == 0 && e@ == "no packages selected"@,
        },
{
    if package_ids.len() == 0 {
        Err(owned("no packages selected"))
    } else {
        Ok(())
    }
}

/// What is known while an install runs: the progress percentage (`None`
/// while unknown) and whether a restart was asked for.
#[derive(Debug, Clone)]
pub struct InstallState {
    pub percent: Option<u8>,
    pub needs_restart: bool,
}

impl InstallState {
    pub fn new() -> (s: Self)
        ensures
            s.percent is None,
            !s.needs_restart,
    {
        InstallState { percent: None, needs_restart: false }
    }
}

/// A signal of the install transaction.
#[derive(Debug, Clone)]
pub enum InstallEvent {
    /// A `Package` signal, with the transaction's `Status` when it came (0 when unreadable).
    Package { package_id: String, status: u32 },
    /// The `Percentage` property changed to this value.
    Percentage(u32),
    /// The `Status` property changed to this value.
    Status(u32),
    /// A `RequireRestart` signal of this type.
    RequireRestart(u32),
    /// An `ErrorCode` signal with these details.
    ErrorCode(String),
    /// The `Finished` signal with its exit code, or `None` when its stream ended.
    Finished(Option<u32>),
}

/// What to do after a signal.
#[derive(Debug)]
pub enum InstallStep {
    /// Report progress as (percent, detail line), then wait for the next signal.
    Progress(Option<u8>, String),
    /// Wait for the next signal.
    Continue,
    /// The install is over, with this outcome.
    Done(Result<InstallResult, String>),
}

/// The percentage to show for a `Percentage` value: unknown for 101, else at most 100.
pub open spec fn percent_of(value: u32) -> Option<u8> {
    if value == PERCENTAGE_UNKNOWN {
        None
    } else if value > 100 {
        Some(100u8)
    } else {
        Some(value as u8)
    }
}

/// A restart of the whole system (not only of a session or an application).
pub open spec fn is_system_restart(kind: u32) -> bool {
    kind == RESTART_SYSTEM || kind == RESTART_SECURITY_SYSTEM
}

/// The message when PackageKit finished without success.
pub open spec fn incomplete_message(exit: u32) -> Seq<char> {
    "update did not complete (PackageKit exit code "@ + dec(exit as nat) + ")"@
}

pub fn install_step(state: &mut InstallState, event: InstallEvent) -> (step: InstallStep)
    ensures
        match event {
            InstallEvent::Package { package_id, status } => {
                &&& *final(state) == *old(state)
                &&& step matches InstallStep::Progress(p, line)
                &&& p == old(state).percent
                &&& line@ == status_text(status) + " "@ + split_on(package_id@, ';')[0]
            },
            InstallEvent::Percentage(value) => {
                &&& final(state).percent == percent_of(value)
                &&& final(state).needs_restart == old(state).needs_restart
                &&& step matches InstallStep::Progress(p, line)
                &&& p == percent_of(value)
                &&& line@ == Seq::<char>::empty()
            },
            InstallEvent::Status(value) => {
                &&& *final(state) == *old(state)
                &&& step matches InstallStep::Progress(p, line)
                &&& p == old(state).percent
                &&& line@ == status_text(value)
            },
            InstallEvent::RequireRestart(kind) => {
                &&& final(state).percent == old(state).percent
                &&& final(state).needs_restart == (old(state).needs_restart || is_system_restart(
                    kind,
                ))
                &&& step is Continue
            },
            InstallEvent::ErrorCode(details) => {
                &&& *final(state) == *old(state)
                &&& step matches InstallStep::Done(Err(e))
                &&& e@ == details@
            },
            InstallEvent::Finished(code) => {
                let exit = match code {
                    Some(c) => c,
                    None => 0u32,
                };
                &&& *final(state) == *old(state)
                &&& exit == EXIT_SUCCESS ==> (step matches InstallStep::Done(Ok(r))
                    && r.needs_restart == old(state).needs_restart)
                &&& exit != EXIT_SUCCESS ==> (step matches InstallStep::Done(Err(e))
                    && e@ == incomplete_message(exit))
            },
        },
{
    match event {
        InstallEvent::Package { package_id, status } => {
            let mut d = chars_of(status_label(status));
            push_all(&mut d, chars_of(" ").as_slice());
            push_all(&mut d, chars_of(package_name(package_id.as_str()).as_str()).as_slice());
            InstallStep::Progress(state.percent, string_of(d.as_slice()))
        },
        InstallEvent::Percentage(value) => {
            state.percent = if value == PERCENTAGE_UNKNOWN {
                None
            } else if value > 100 {
                Some(100u8)
            } else {
                Some(value as u8)
            };
            InstallStep::Progress(state.percent, String::new())
        },
        InstallEvent::Status(value) => InstallStep::Progress(state.percent, owned(status_label(value))),
        InstallEvent::RequireRestart(kind) => {
            if kind == RESTART_SYSTEM || kind == RESTART_SECURITY_SYSTEM {
                state.needs_restart = true;
            }
            InstallStep::Continue
        },
        InstallEvent::ErrorCode(details) => InstallStep::Done(Err(details)),
        InstallEvent::Finished(code) => {
            let exit = match code {
                Some(c) => c,
                None => 0u32,
            };
            if exit != EXIT_SUCCESS {
                let mut d = chars_of("update did not complete (PackageKit exit code ");
                push_all(&mut d, dec_chars(exit as u64).as_slice());
                push_all(&mut d, chars_of(")").as_slice());
                InstallStep::Done(Err(string_of(d.as_slice())))
            } else {
                InstallStep::Done(Ok(InstallResult { needs_restart: state.needs_restart }))
            }
        },
    }
}

// ---- Properties of the order by name ----

/// Each update's name is not greater than any later one's.
pub open spec fn ordered_by_name(s: Seq<UpdateView>) -> bool {
    forall|i: int, j: int| 0 <= i < j < s.len() ==> name_le(#[trigger] s[i].name, #[trigger] s[j].name)
}

/// Any two names are comparable.
pub proof fn name_le_total(a: Seq<char>, b: Seq<char>)
    ensures
        name_le(a, b) || name_le(b, a),
    decreases a.len(),
{
    if a.len() > 0 && b.len() > 0 {
        if a[0] == b[0] {
            name_le_total(a.drop_first(), b.drop_first());
        }
    }
}

/// The order of names is transitive.
pub proof fn name_le_transitive(a: Seq<char>, b: Seq<char>, c: Seq<char>)
    requires
        name_le(a, b),
        name_le(b, c),
    ensures
        name_le(a, c),
    decreases a.len(),
{
    if a.len() > 0 && b.len() > 0 && c.len() > 0 && a[0] == b[0] && b[0] == c[0] {
        name_le_transitive(a.drop_first(), b.drop_first(), c.drop_first());
    }
}

proof fn lemma_insert_by_name(s: Seq<UpdateView>, x: UpdateView)
    requires
        ordered_by_name(s),
    ensures
        ordered_by_name(insert_by_name(s, x)),
        insert_by_name(s, x).to_multiset() == s.to_multiset().insert(x),
        forall|k: int|
            0 <= k < insert_by_name(s, x).len() ==> #[trigger] insert_by_name(s, x)[k] == x
                || s.contains(insert_by_name(s, x)[k]),
    decreases s.len(),
{
    broadcast use vstd::seq_lib::group_to_multiset_ensures;

    let r = insert_by_name(s, x);
    if s.len() == 0 {
        assert(seq![x] =~= Seq::<UpdateView>::empty().push(x));
    } else if name_le(s.last().name, x.name) {
        assert forall|i: int, j: int| 0 <= i < j < r.len() implies name_le(
            #[trigger] r[i].name,
            #[trigger] r[j].name,
        ) by {
            if j == s.len() && i < s.len() - 1 {
                name_le_transitive(s[i].name, s.last().name, x.name);
            }
        }
        assert forall|k: int| 0 <= k < r.len() implies #[trigger] r[k] == x || s.contains(r[k]) by {
            if k < s.len() {
                assert(s[k] == r[k]);
            }
        }
    } else {
        let d = s.drop_last();
        let last = s.last();
        assert(ordered_by_name(d)) by {
            assert forall|i: int, j: int| 0 <= i < j < d.len() implies name_le(
                #[trigger] d[i].name,
                #[trigger] d[j].name,
            ) by {
                assert(d[i] == s[i] && d[j] == s[j]);
            }
        }
        lemma_insert_by_name(d, x);
        let rd = insert_by_name(d, x);
        assert(s =~= d.push(last));
        name_le_total(last.name, x.name);
        assert forall|k: int| 0 <= k < rd.len() implies name_le(#[trigger] rd[k].name, last.name) by {
            if rd[k] != x {
                assert(d.contains(rd[k]));
                let m = choose|m: int| 0 <= m < d.len() && d[m] == rd[k];
                assert(s[m] == d[m]);
                assert(name_le(s[m].name, s[s.len() - 1].name));
            }
        }
        assert forall|i: int, j: int| 0 <= i < j < r.len() implies name_le(
            #[trigger] r[i].name,
            #[trigger] r[j].name,
        ) by {
            if j == rd.len() {
                assert(r[i] == rd[i]);
            } else {
                assert(r[i] == rd[i] && r[j] == rd[j]);
            }
        }
        assert forall|k: int| 0 <= k < r.len() implies #[trigger] r[k] == x || s.contains(r[k]) by {
            if k < rd.len() {
                assert(r[k] == rd[k]);
                if rd[k] != x {
                    let m = choose|m: int| 0 <= m < d.len() && d[m] == rd[k];
                    assert(s[m] == d[m]);
                }
            } else {
                assert(r[k] == s[s.len() - 1]);
            }
        }
        assert(r.to_multiset() =~= rd.to_multiset().insert(last));
        assert(s.to_multiset() =~= d.to_multiset().insert(last));
        assert(r.to_multiset() =~= s.to_multiset().insert(x));
    }
}

/// Ordering by name gives the same updates, each name not greater than the next.
pub proof fn sorted_by_name_is_ordered(s: Seq<UpdateView>)
    ensures
        ordered_by_name(sorted_by_name(s)),
        sorted_by_name(s).to_multiset() == s.to_multiset(),
    decreases s.len(),
{
    broadcast use vstd::seq_lib::group_to_multiset_ensures;

    if s.len() == 0 {
        assert(sorted_by_name(s).to_multiset() =~= s.to_multiset());
    } else {
        sorted_by_name_is_ordered(s.drop_last());
        lemma_insert_by_name(sorted_by_name(s.drop_last()), s.last());
        assert(s =~= s.drop_last().push(s.last()));
    }
}

/// A restart request sets `needs_restart` exactly for PK_RESTART_ENUM_SYSTEM
/// (4) and PK_RESTART_ENUM_SECURITY_SYSTEM (6); session and application
/// restarts leave it as it was, and nothing clears it.
pub proof fn system_restart_kinds(kind: u32, before: bool)
    ensures
        is_system_restart(kind) <==> (kind == 4 || kind == 6),
        (kind == 4 || kind == 6) ==> (before || is_system_restart(kind)),
        !(kind == 4 || kind == 6) ==> ((before || is_system_restart(kind)) == before),
{
}

/// The severity read from a PK_INFO_ENUM value: the high 16 bits when they
/// are not zero, else the low 16 bits.
pub open spec fn severity_code(info: u32) -> u32 {
    if info / 65536 != 0 {
        (info / 65536) as u32
    } else {
        (info % 65536) as u32
    }
}

/// The severity names: AVAILABLE (2), NORMAL (5) and the action codes 27–30
/// are "normal", 3 "low", 4 "enhancement", 6 "bugfix", 7 "important",
/// 8 "security", 9 "blocked", 26 "critical"; "unknown" is given exactly for
/// the codes outside 2–9 and 26–30.
pub proof fn severity_names(info: u32)
    ensures
        ({
            let c = severity_code(info);
            &&& (c == 2 || c == 5 || 27 <= c <= 30) ==> severity_of(info) == "normal"@
            &&& c == 3 ==> severity_of(info) == "low"@
            &&& c == 4 ==> severity_of(info) == "enhancement"@
            &&& c == 6 ==> severity_of(info) == "bugfix"@
            &&& c == 7 ==> severity_of(info) == "important"@
            &&& c == 8 ==> severity_of(info) == "security"@
            &&& c == 9 ==> severity_of(info) == "blocked"@
            &&& c == 26 ==> severity_of(info) == "critical"@
            &&& (severity_of(info) == "unknown"@ <==> !(2 <= c <= 9 || 26 <= c <= 30))
        }),
{
    reveal_strlit("unknown");
    reveal_strlit("normal");
    reveal_strlit("low");
    reveal_strlit("enhancement");
    reveal_strlit("bugfix");
    reveal_strlit("important");
    reveal_strlit("security");
    reveal_strlit("blocked");
    reveal_strlit("critical");
    assert("unknown"@.len() == 7);
    assert("normal"@.len() == 6);
    assert("low"@.len() == 3);
    assert("enhancement"@.len() == 11);
    assert("bugfix"@.len() == 6);
    assert("important"@.len() == 9);
    assert("security"@.len() == 8);
    assert("blocked"@.len() == 7);
    assert("critical"@.len() == 8);
    assert("blocked"@[0] != "unknown"@[0]);
}

} // verus!
