//! The session reconciliation and mutation engine.
//!
//! Live sessions come in as noisy snapshots: a session that a snapshot leaves
//! out is kept until it has been missing from `MISSING_THRESHOLD` snapshots in a
//! row. Resurrectable sessions are replaced wholesale. User actions (kill,
//! rename) change the local view at once, ahead of the host.

use crate::table::{NameTable, lists, map_of_pairs};
use crate::text::{decimal, decimal_text, lower_of, lowercase, texts};
use crate::types::{HostCommand, SessionAction, SessionInfo};
use std::time::{Duration, SystemTime, UNIX_EPOCH};
use vstd::prelude::*;
use vstd::string::*;

verus! {

/// Number of consecutive snapshots a live session must be missing from before
/// it is removed.
pub const MISSING_THRESHOLD: u8 = 3;

// ---------------------------------------------------------------------------
// The model of reconciliation.

/// The identity of a session: its name, folded to lower case.
pub open spec fn key_of(s: SessionInfo) -> Seq<char> {
    lower_of(s.name@)
}

/// Some record of `list` has identity `k`.
pub open spec fn has_key(list: Seq<SessionInfo>, k: Seq<char>) -> bool {
    exists|i: int| 0 <= i < list.len() && key_of(list[i]) == k
}

/// The first index of `list` whose record has identity `k`.
pub open spec fn first_with_key(list: Seq<SessionInfo>, k: Seq<char>) -> int {
    choose|i: int|
        0 <= i < list.len() && key_of(list[i]) == k && forall|j: int|
            0 <= j < i ==> key_of(list[j]) != k
}

/// `list` after one inbound record `n`: a record of a new identity is appended;
/// otherwise the first record of that identity takes `n`'s current flag and
/// keeps its own name.
pub open spec fn absorb(list: Seq<SessionInfo>, n: SessionInfo) -> Seq<SessionInfo> {
    if has_key(list, key_of(n)) {
        let i = first_with_key(list, key_of(n));
        list.update(i, SessionInfo { name: list[i].name, is_current_session: n.is_current_session })
    } else {
        list.push(n)
    }
}

/// Absorbing `n` changes what is shown.
pub open spec fn absorb_changes(list: Seq<SessionInfo>, n: SessionInfo) -> bool {
    !has_key(list, key_of(n)) || list[first_with_key(list, key_of(n))].is_current_session
        != n.is_current_session
}

/// `list` after the inbound records `ns`, in order.
pub open spec fn absorb_all(list: Seq<SessionInfo>, ns: Seq<SessionInfo>) -> Seq<SessionInfo>
    decreases ns.len(),
{
    if ns.len() == 0 {
        list
    } else {
        absorb(absorb_all(list, ns.drop_last()), ns.last())
    }
}

/// Some record of `ns` changes what is shown when absorbed in order.
pub open spec fn absorb_all_changes(list: Seq<SessionInfo>, ns: Seq<SessionInfo>) -> bool
    decreases ns.len(),
{
    if ns.len() == 0 {
        false
    } else {
        absorb_all_changes(list, ns.drop_last()) || absorb_changes(
            absorb_all(list, ns.drop_last()),
            ns.last(),
        )
    }
}

/// How many records of `list` have identity `k`.
pub open spec fn count_key(list: Seq<SessionInfo>, k: Seq<char>) -> nat
    decreases list.len(),
{
    if list.len() == 0 {
        0
    } else {
        count_key(list.drop_last(), k) + (if key_of(list.last()) == k {
            1nat
        } else {
            0nat
        })
    }
}

/// The missing counts once every identity that `ns` reports is cleared.
pub open spec fn without_reported(m: Map<Seq<char>, u8>, ns: Seq<SessionInfo>) -> Map<
    Seq<char>,
    u8,
> {
    Map::new(|k: Seq<char>| m.contains_key(k) && !has_key(ns, k), |k: Seq<char>| m[k])
}

/// The count stored for `k` before this snapshot's misses are added.
pub open spec fn base_count(m: Map<Seq<char>, u8>, k: Seq<char>) -> int {
    if m.contains_key(k) {
        m[k] as int
    } else {
        0
    }
}

/// Records of `list` with identity `k` are missing from snapshot `ns`.
pub open spec fn is_absent(list: Seq<SessionInfo>, ns: Seq<SessionInfo>, k: Seq<char>) -> bool {
    !has_key(ns, k) && count_key(list, k) > 0
}

/// The number of misses of `k` once the records of `list` are tallied: one
/// for each record of that identity.
pub open spec fn tally(m: Map<Seq<char>, u8>, list: Seq<SessionInfo>, k: Seq<char>) -> int {
    base_count(m, k) + count_key(list, k)
}

/// Records of identity `k` have now been missing `MISSING_THRESHOLD` times.
pub open spec fn is_doomed(
    m: Map<Seq<char>, u8>,
    list: Seq<SessionInfo>,
    ns: Seq<SessionInfo>,
    k: Seq<char>,
) -> bool {
    is_absent(list, ns, k) && tally(m, list, k) >= MISSING_THRESHOLD
}

/// One of the first `n` strings of `v` equals `k`.
pub open spec fn listed(v: Seq<String>, n: int, k: Seq<char>) -> bool {
    exists|r: int| 0 <= r < n && v[r]@ == k
}

/// A record of `s1` stays unless its identity is doomed.
pub open spec fn survives(
    m1: Map<Seq<char>, u8>,
    s1: Seq<SessionInfo>,
    ns: Seq<SessionInfo>,
) -> spec_fn(SessionInfo) -> bool {
    |r: SessionInfo| !is_doomed(m1, s1, ns, key_of(r))
}

/// The live sessions after snapshot `ns`, from sessions `s` and missing counts `m`.
pub open spec fn reconciled_sessions(
    s: Seq<SessionInfo>,
    m: Map<Seq<char>, u8>,
    ns: Seq<SessionInfo>,
) -> Seq<SessionInfo> {
    let s1 = absorb_all(s, ns);
    let m1 = without_reported(m, ns);
    s1.filter(survives(m1, s1, ns))
}

/// The missing counts after snapshot `ns`.
pub open spec fn reconciled_missing(
    s: Seq<SessionInfo>,
    m: Map<Seq<char>, u8>,
    ns: Seq<SessionInfo>,
) -> Map<Seq<char>, u8> {
    let s1 = absorb_all(s, ns);
    let m1 = without_reported(m, ns);
    Map::new(
        |k: Seq<char>|
            (m1.contains_key(k) || is_absent(s1, ns, k)) && !is_doomed(m1, s1, ns, k),
        |k: Seq<char>|
            if is_absent(s1, ns, k) {
                tally(m1, s1, k) as u8
            } else {
                m1[k]
            },
    )
}

/// Snapshot `ns` changes what is shown: a record is added or changes its
/// current flag, or a session is dropped.
pub open spec fn reconcile_changes(
    s: Seq<SessionInfo>,
    m: Map<Seq<char>, u8>,
    ns: Seq<SessionInfo>,
) -> bool {
    let s1 = absorb_all(s, ns);
    let m1 = without_reported(m, ns);
    absorb_all_changes(s, ns) || exists|k: Seq<char>| is_doomed(m1, s1, ns, k)
}

/// `n` held in a byte, 255 where it does not fit.
pub open spec fn capped(n: int) -> u8 {
    if n >= 255 {
        255
    } else {
        n as u8
    }
}

/// The missing counts while the records of prefix `p` of the sessions are
/// being tallied (a count saturates at 255).
pub open spec fn tallied(m1: Map<Seq<char>, u8>, p: Seq<SessionInfo>, ns: Seq<SessionInfo>) -> Map<
    Seq<char>,
    u8,
> {
    Map::new(
        |k: Seq<char>| m1.contains_key(k) || is_absent(p, ns, k),
        |k: Seq<char>|
            if is_absent(p, ns, k) {
                capped(tally(m1, p, k))
            } else {
                m1[k]
            },
    )
}

/// Appending a record adds its identity and keeps the others.
pub proof fn lemma_has_key_push(list: Seq<SessionInfo>, n: SessionInfo, k: Seq<char>)
    ensures
        has_key(list.push(n), k) == (has_key(list, k) || key_of(n) == k),
{
    let l2 = list.push(n);
    if has_key(list, k) {
        let i = choose|i: int| 0 <= i < list.len() && key_of(list[i]) == k;
        assert(l2[i] == list[i]);
    }
    if key_of(n) == k {
        assert(l2[list.len() as int] == n);
    }
    if has_key(l2, k) {
        let i = choose|i: int| 0 <= i < l2.len() && key_of(l2[i]) == k;
        if i < list.len() {
            assert(l2[i] == list[i]);
        }
    }
}

/// Every stored miss count lies between one and the threshold, the threshold
/// excluded.
pub open spec fn counts_in_range(m: Map<Seq<char>, u8>) -> bool {
    forall|x: Seq<char>| #[trigger] m.contains_key(x) ==> 1 <= m[x] < MISSING_THRESHOLD
}

/// The names of a resurrectable list, folded to lower case.
pub open spec fn folded_names(list: Seq<(String, Duration)>) -> Seq<Seq<char>> {
    list.map_values(|e: (String, Duration)| lower_of(e.0@))
}

/// Some resurrectable entry of `list` has folded name `k`.
pub open spec fn has_folded_name(list: Seq<(String, Duration)>, k: Seq<char>) -> bool {
    exists|i: int| 0 <= i < list.len() && lower_of(list[i].0@) == k
}

/// The host command that a user action comes to, given the resurrectable
/// sessions: killing a resurrectable session deletes it, any other kill goes
/// to the live session.
pub open spec fn command_for(action: SessionAction, dead: Seq<(String, Duration)>) -> HostCommand {
    match action {
        SessionAction::Switch(n) => HostCommand::Switch(n),
        SessionAction::Kill(n) => if has_folded_name(dead, lower_of(n@)) {
            HostCommand::DeleteDead(n)
        } else {
            HostCommand::KillLive(n)
        },
    }
}

/// Some live session is named exactly `t`.
pub open spec fn live_name_used(list: Seq<SessionInfo>, t: Seq<char>) -> bool {
    exists|i: int| 0 <= i < list.len() && list[i].name@ == t
}

/// Some resurrectable session is named exactly `t`.
pub open spec fn dead_name_used(list: Seq<(String, Duration)>, t: Seq<char>) -> bool {
    exists|i: int| 0 <= i < list.len() && list[i].0@ == t
}

/// The `n`-th candidate name: `base`, the separator, then `n` in decimal.
pub open spec fn candidate(base: Seq<char>, sep: Seq<char>, n: nat) -> Seq<char> {
    base + sep + decimal(n)
}

/// Every candidate from 2 up to `n`, `n` excluded, names a live session.
pub open spec fn taken_below(list: Seq<SessionInfo>, base: Seq<char>, sep: Seq<char>, n: nat) -> bool {
    forall|j: nat| 2 <= j < n ==> live_name_used(list, #[trigger] candidate(base, sep, j))
}

/// The highest number that is tried as a suffix before a random one is used.
pub const LAST_PROBE: u32 = 1000;

/// A lower-case hexadecimal digit.
pub open spec fn is_lower_hex(c: char) -> bool {
    ('0' <= c && c <= '9') || ('a' <= c && c <= 'f')
}

/// Keeps the live records whose identity is not `k`.
pub open spec fn other_identity(k: Seq<char>) -> spec_fn(SessionInfo) -> bool {
    |s: SessionInfo| key_of(s) != k
}

/// Keeps the resurrectable entries whose folded name is not `k`.
pub open spec fn other_folded_name(k: Seq<char>) -> spec_fn((String, Duration)) -> bool {
    |e: (String, Duration)| lower_of(e.0@) != k
}

/// `after` is `before` with the first record of identity `k`, if any, renamed
/// to `name`; its current flag and every other record stay.
pub open spec fn renamed_first(
    before: Seq<SessionInfo>,
    after: Seq<SessionInfo>,
    k: Seq<char>,
    name: Seq<char>,
) -> bool {
    if has_key(before, k) {
        let i = first_with_key(before, k);
        &&& after.len() == before.len()
        &&& after[i].name@ == name
        &&& after[i].is_current_session == before[i].is_current_session
        &&& forall|j: int| 0 <= j < before.len() && j != i ==> after[j] == before[j]
    } else {
        after == before
    }
}

/// The rank of `k`: its last switch time, 0 when it has none.
pub open spec fn rank(m: Map<Seq<char>, u64>, k: Seq<char>) -> u64 {
    if m.contains_key(k) {
        m[k]
    } else {
        0
    }
}

/// The MRU table after renaming `from` to `to`: the entry of `from` moves to
/// `to`; when `from` has none, `to` is left without one too.
pub open spec fn moved_entry(m: Map<Seq<char>, u64>, from: Seq<char>, to: Seq<char>) -> Map<
    Seq<char>,
    u64,
> {
    if m.contains_key(from) {
        m.remove(from).insert(to, m[from])
    } else {
        m.remove(to)
    }
}

// ---------------------------------------------------------------------------
// Searches.

/// Whether `list` holds a string equal to `k`.
fn contains_text(list: &Vec<String>, k: &String) -> (r: bool)
    ensures
        r == exists|j: int| 0 <= j < list@.len() && list@[j]@ == k@,
{
    let mut i: usize = 0;
    while i < list.len()
        invariant
            i <= list@.len(),
            forall|j: int| 0 <= j < i ==> list@[j]@ != k@,
        decreases list@.len() - i,
    {
        if list[i] == *k {
            return true;
        }
        i = i + 1;
    }
    false
}

/// The first index of `list` whose record has identity `k`.
fn position_of_key(list: &Vec<SessionInfo>, k: &String) -> (r: Option<usize>)
    ensures
        match r {
            Some(i) => i < list@.len() && has_key(list@, k@) && i == first_with_key(list@, k@),
            None => !has_key(list@, k@),
        },
{
    let mut i: usize = 0;
    while i < list.len()
        invariant
            i <= list@.len(),
            forall|j: int| 0 <= j < i ==> key_of(#[trigger] list@[j]) != k@,
        decreases list@.len() - i,
    {
        let key = lowercase(list[i].name.as_str());
        if key == *k {
            proof {
                let c = first_with_key(list@, k@);
                assert(key_of(list@[i as int]) == k@);
                assert(c == i);
            }
            return Some(i);
        }
        i = i + 1;
    }
    None
}

/// Relies on `uuid::Uuid::new_v4` and the `Display` of `Uuid`, which writes the
/// hyphenated lower-case form: 36 characters, the first eight of them
/// hexadecimal digits.
#[verifier::external_body]
fn random_uuid_text() -> (r: String)
    ensures
        r@.len() == 36,
        forall|i: int| 0 <= i < 8 ==> is_lower_hex(#[trigger] r@[i]),
{
    uuid::Uuid::new_v4().to_string()
}

/// Whether a live session is named exactly `t`.
fn live_uses(list: &Vec<SessionInfo>, t: &String) -> (r: bool)
    ensures
        r == live_name_used(list@, t@),
{
    let mut i: usize = 0;
    while i < list.len()
        invariant
            i <= list@.len(),
            forall|j: int| 0 <= j < i ==> (#[trigger] list@[j]).name@ != t@,
        decreases list@.len() - i,
    {
        if list[i].name == *t {
            return true;
        }
        i = i + 1;
    }
    false
}

/// Whether a resurrectable session is named exactly `t`.
fn dead_uses(list: &Vec<(String, Duration)>, t: &String) -> (r: bool)
    ensures
        r == dead_name_used(list@, t@),
{
    let mut i: usize = 0;
    while i < list.len()
        invariant
            i <= list@.len(),
            forall|j: int| 0 <= j < i ==> (#[trigger] list@[j]).0@ != t@,
        decreases list@.len() - i,
    {
        if list[i].0 == *t {
            return true;
        }
        i = i + 1;
    }
    false
}

/// The names of a resurrectable list, folded to lower case.
fn fold_names(list: &Vec<(String, Duration)>) -> (r: Vec<String>)
    ensures
        texts(r@) == folded_names(list@),
{
    let mut r: Vec<String> = Vec::new();
    let mut i: usize = 0;
    while i < list.len()
        invariant
            i <= list@.len(),
            r@.len() == i,
            forall|j: int| 0 <= j < i ==> (#[trigger] r@[j])@ == lower_of(list@[j].0@),
        decreases list@.len() - i,
    {
        r.push(lowercase(list[i].0.as_str()));
        i = i + 1;
    }
    assert(texts(r@) =~= folded_names(list@));
    r
}

/// Whether every string of `a` occurs in `b`.
fn all_listed_in(a: &Vec<String>, b: &Vec<String>) -> (r: bool)
    ensures
        r == (forall|j: int| 0 <= j < a@.len() ==> texts(b@).contains(#[trigger] a@[j]@)),
{
    let mut i: usize = 0;
    while i < a.len()
        invariant
            i <= a@.len(),
            forall|j: int| 0 <= j < i ==> texts(b@).contains(#[trigger] a@[j]@),
        decreases a@.len() - i,
    {
        let found = contains_text(b, &a[i]);
        proof {
            if found {
                let q = choose|q: int| 0 <= q < b@.len() && b@[q]@ == a@[i as int]@;
                assert(texts(b@)[q] == b@[q]@);
            } else if texts(b@).contains(a@[i as int]@) {
                let q = choose|q: int| 0 <= q < texts(b@).len() && texts(b@)[q] == a@[i as int]@;
                assert(b@[q]@ == texts(b@)[q]);
            }
        }
        if !found {
            return false;
        }
        i = i + 1;
    }
    true
}

/// Whether `a` and `b` hold the same strings, however often each occurs.
fn same_texts(a: &Vec<String>, b: &Vec<String>) -> (r: bool)
    ensures
        r == (texts(a@).to_set() == texts(b@).to_set()),
{
    let ghost ta = texts(a@);
    let ghost tb = texts(b@);
    let a_in_b = all_listed_in(a, b);
    let b_in_a = all_listed_in(b, a);
    proof {
        if a_in_b && b_in_a {
            assert forall|x: Seq<char>| ta.to_set().contains(x) == tb.to_set().contains(x) by {
                if ta.contains(x) {
                    let j = choose|j: int| 0 <= j < ta.len() && ta[j] == x;
                    assert(a@[j]@ == ta[j]);
                }
                if tb.contains(x) {
                    let j = choose|j: int| 0 <= j < tb.len() && tb[j] == x;
                    assert(b@[j]@ == tb[j]);
                }
            }
            assert(ta.to_set() =~= tb.to_set());
        } else if !a_in_b {
            let j = choose|j: int| 0 <= j < a@.len() && !tb.contains(#[trigger] a@[j]@);
            assert(ta[j] == a@[j]@);
            assert(ta.to_set().contains(a@[j]@));
        } else {
            let j = choose|j: int| 0 <= j < b@.len() && !ta.contains(#[trigger] b@[j]@);
            assert(tb[j] == b@[j]@);
            assert(tb.to_set().contains(b@[j]@));
        }
    }
    a_in_b && b_in_a
}

/// Whether a resurrectable entry has folded name `k`.
fn has_dead_key(list: &Vec<(String, Duration)>, k: &String) -> (r: bool)
    ensures
        r == has_folded_name(list@, k@),
{
    let mut i: usize = 0;
    while i < list.len()
        invariant
            i <= list@.len(),
            forall|j: int| 0 <= j < i ==> lower_of((#[trigger] list@[j]).0@) != k@,
        decreases list@.len() - i,
    {
        if lowercase(list[i].0.as_str()) == *k {
            return true;
        }
        i = i + 1;
    }
    false
}

#[verifier::external_type_specification]
#[verifier::external_body]
pub struct ExSystemTime(SystemTime);

/// Relies on `SystemTime::now`: the clock's reading.
#[verifier::external_body]
fn clock_now() -> (r: SystemTime) {
    SystemTime::now()
}

/// Relies on `SystemTime::duration_since`: the time from the Unix epoch to
/// `t`, `None` when `t` is earlier.
#[verifier::external_body]
fn since_epoch(t: &SystemTime) -> (r: Option<Duration>) {
    t.duration_since(UNIX_EPOCH).ok()
}

/// Relies on `Duration::as_secs`: the whole seconds of `d`.
#[verifier::external_body]
fn whole_seconds(d: &Duration) -> (r: u64) {
    d.as_secs()
}

/// The name used when every numbered candidate is taken: `base_name`, the
/// separator, then the first eight characters of the drawn identifier text
/// `drawn`.
pub fn fallback_name(base_name: &str, separator: &str, drawn: &str) -> (r: String)
    requires
        drawn@.len() >= 8,
    ensures
        r@ == base_name@ + separator@ + drawn@.subrange(0, 8),
{
    let mut name = String::from_str(base_name);
    name.append(separator);
    name.append(drawn.substring_char(0, 8));
    name
}

// ---------------------------------------------------------------------------
// The engine.

/// The engine's state: live and resurrectable sessions, the debounce counts,
/// the most-recently-used table and the session awaiting confirmation of its
/// deletion.
pub struct SessionManager {
    sessions: Vec<SessionInfo>,
    pending_deletion: Option<String>,
    resurrectable_sessions: Vec<(String, Duration)>,
    missing_counts: NameTable<u8>,
    mru_timestamps: NameTable<u64>,
}

impl SessionManager {
    /// The live sessions, in the order they were first seen.
    pub closed spec fn live(&self) -> Seq<SessionInfo> {
        self.sessions@
    }

    /// The resurrectable sessions, as last reported.
    pub closed spec fn resurrectable(&self) -> Seq<(String, Duration)> {
        self.resurrectable_sessions@
    }

    /// The name awaiting confirmation of its deletion.
    pub closed spec fn pending(&self) -> Option<String> {
        self.pending_deletion
    }

    /// Consecutive misses, by folded name.
    pub closed spec fn missing(&self) -> Map<Seq<char>, u8> {
        self.missing_counts.map()
    }

    /// Last switch time in epoch seconds, by exact name.
    pub closed spec fn mru(&self) -> Map<Seq<char>, u64> {
        self.mru_timestamps.map()
    }

    /// The engine's invariant: each stored miss count lies between one and the
    /// threshold, the threshold excluded (a count that reaches it removes its
    /// session and the count with it).
    pub closed spec fn wf(&self) -> bool {
        &&& self.missing_counts.wf()
        &&& self.mru_timestamps.wf()
        &&& forall|k: Seq<char>|
            #[trigger] self.missing().contains_key(k) ==> 1 <= self.missing()[k]
                < MISSING_THRESHOLD
    }

    /// A well-formed engine keeps its miss counts in range.
    pub proof fn lemma_counts_in_range(&self)
        requires
            self.wf(),
        ensures
            counts_in_range(self.missing()),
    {
    }

    /// Merges a snapshot of the live sessions into the local view and tells
    /// whether the shown list changed.
    ///
    /// Each inbound record clears the miss count of its identity; a record of a
    /// new identity is appended, one of a known identity only updates the
    /// current flag of the first local record of that identity. Every local
    /// record whose identity the snapshot lacks adds one miss to its identity;
    /// identities that reach `MISSING_THRESHOLD` misses are removed with their
    /// records and counts.
    pub fn update_sessions_stable(&mut self, new_sessions: Vec<SessionInfo>) -> (changed: bool)
        requires
            old(self).wf(),
        ensures
            final(self).wf(),
            final(self).live() == reconciled_sessions(
                old(self).live(),
                old(self).missing(),
                new_sessions@,
            ),
            final(self).missing() == reconciled_missing(
                old(self).live(),
                old(self).missing(),
                new_sessions@,
            ),
            changed == reconcile_changes(old(self).live(), old(self).missing(), new_sessions@),
            final(self).resurrectable() == old(self).resurrectable(),
            final(self).pending() == old(self).pending(),
            final(self).mru() == old(self).mru(),
    {
        let ghost s0 = self.sessions@;
        let ghost m0 = self.missing_counts.map();
        let ghost ns = new_sessions@;
        let mut changed = false;
        let mut reported: Vec<String> = Vec::new();

        // Inbound records: clear their counts, add or update their sessions.
        let mut j: usize = 0;
        while j < new_sessions.len()
            invariant
                j <= ns.len(),
                ns == new_sessions@,
                self.missing_counts.wf(),
                self.mru_timestamps.wf(),
                self.mru_timestamps.map() == old(self).mru(),
                self.pending_deletion == old(self).pending_deletion,
                self.resurrectable_sessions@ == old(self).resurrectable(),
                reported@.len() == j,
                forall|q: int| 0 <= q < j ==> #[trigger] reported@[q]@ == key_of(ns[q]),
                self.sessions@ == absorb_all(s0, ns.take(j as int)),
                changed == absorb_all_changes(s0, ns.take(j as int)),
                self.missing_counts.map() == without_reported(m0, ns.take(j as int)),
            decreases ns.len() - j,
        {
            let key = lowercase(new_sessions[j].name.as_str());
            let ghost mbefore = self.missing_counts.map();
            self.missing_counts.remove(&key);
            let ghost before = self.sessions@;
            match position_of_key(&self.sessions, &key) {
                None => {
                    self.sessions.push(new_sessions[j].duplicate());
                    changed = true;
                },
                Some(i) => {
                    if self.sessions[i].is_current_session != new_sessions[j].is_current_session {
                        let updated = SessionInfo {
                            name: self.sessions[i].name.clone(),
                            is_current_session: new_sessions[j].is_current_session,
                        };
                        self.sessions.set(i, updated);
                        changed = true;
                    } else {
                        assert(before.update(
                            i as int,
                            SessionInfo {
                                name: before[i as int].name,
                                is_current_session: ns[j as int].is_current_session,
                            },
                        ) =~= before);
                    }
                },
            }
            reported.push(key);
            proof {
                let t1 = ns.take(j + 1);
                assert(t1.drop_last() =~= ns.take(j as int));
                assert(t1.last() == ns[j as int]);
                assert forall|k: Seq<char>|
                    has_key(t1, k) == (has_key(ns.take(j as int), k) || key_of(ns[j as int]) == k) by {
                    assert(t1 =~= ns.take(j as int).push(ns[j as int]));
                    lemma_has_key_push(ns.take(j as int), ns[j as int], k);
                }
                assert(self.missing_counts.map() =~= without_reported(m0, t1));
            }
            j = j + 1;
        }
        proof {
            assert(ns.take(ns.len() as int) =~= ns);
        }

        // Local records the snapshot lacks: count a miss each.
        let ghost s1 = self.sessions@;
        let ghost m1 = self.missing_counts.map();
        let ghost c1 = changed;
        let mut doomed: Vec<String> = Vec::new();
        let mut i: usize = 0;
        proof {
            assert(tallied(m1, s1.take(0), ns) =~= m1);
        }
        while i < self.sessions.len()
            invariant
                self.sessions@ == s1,
                i <= s1.len(),
                self.missing_counts.wf(),
                self.mru_timestamps.wf(),
                self.mru_timestamps.map() == old(self).mru(),
                self.pending_deletion == old(self).pending_deletion,
                self.resurrectable_sessions@ == old(self).resurrectable(),
                reported@.len() == ns.len(),
                forall|q: int| 0 <= q < ns.len() ==> #[trigger] reported@[q]@ == key_of(ns[q]),
                self.missing_counts.map() == tallied(m1, s1.take(i as int), ns),
                forall|q: int|
                    0 <= q < doomed@.len() ==> is_doomed(
                        m1,
                        s1.take(i as int),
                        ns,
                        #[trigger] doomed@[q]@,
                    ),
                forall|k: Seq<char>|
                    is_doomed(m1, s1.take(i as int), ns, k) ==> exists|q: int|
                        0 <= q < doomed@.len() && doomed@[q]@ == k,
                changed == (c1 || doomed@.len() > 0),
            decreases s1.len() - i,
        {
            let key = lowercase(self.sessions[i].name.as_str());
            let ghost p = s1.take(i as int);
            let ghost p1 = s1.take(i + 1);
            proof {
                assert(p1.drop_last() =~= p);
                assert(p1.last() == s1[i as int]);
            }
            let ghost dbefore = doomed@;
            let is_reported = contains_text(&reported, &key);
            proof {
                if is_reported {
                    let q = choose|q: int| 0 <= q < reported@.len() && reported@[q]@ == key@;
                    assert(key_of(ns[q]) == key@);
                    assert(has_key(ns, key@));
                } else {
                    assert forall|q: int| 0 <= q < ns.len() implies key_of(ns[q]) != key@ by {
                        assert(reported@[q]@ == key_of(ns[q]));
                    }
                    assert(!has_key(ns, key@));
                }
            }
            if !is_reported {
                let count: u8 = match self.missing_counts.get(&key) {
                    Some(c) => c,
                    None => 0,
                };
                let next: u8 = if count < 255 {
                    count + 1
                } else {
                    255
                };
                self.missing_counts.insert(key.clone(), next);
                if next >= MISSING_THRESHOLD {
                    doomed.push(key);
                    changed = true;
                }
            }
            proof {
                assert(self.missing_counts.map() =~= tallied(m1, p1, ns));
                assert forall|q: int| 0 <= q < doomed@.len() implies is_doomed(
                    m1,
                    p1,
                    ns,
                    #[trigger] doomed@[q]@,
                ) by {
                    if q < dbefore.len() {
                        assert(doomed@[q] == dbefore[q]);
                        assert(is_doomed(m1, p, ns, dbefore[q]@));
                    }
                }
                assert forall|k: Seq<char>| is_doomed(m1, p1, ns, k) implies exists|q: int|
                    0 <= q < doomed@.len() && doomed@[q]@ == k by {
                    if is_doomed(m1, p, ns, k) {
                        let q = choose|q: int| 0 <= q < dbefore.len() && dbefore[q]@ == k;
                        assert(doomed@[q] == dbefore[q]);
                    } else {
                        assert(doomed@[doomed@.len() - 1]@ == k);
                    }
                }
            }
            i = i + 1;
        }
        proof {
            assert(s1.take(s1.len() as int) =~= s1);
        }
        let ghost m2 = self.missing_counts.map();

        // Drop the doomed identities.
        let ghost keep = survives(m1, s1, ns);
        let mut kept: Vec<SessionInfo> = Vec::new();
        let mut i: usize = 0;
        proof {
            reveal(Seq::filter);
            assert(s1.take(0).filter(keep) =~= Seq::<SessionInfo>::empty());
        }
        while i < self.sessions.len()
            invariant
                self.sessions@ == s1,
                i <= s1.len(),
                kept@ == s1.take(i as int).filter(keep),
                keep == survives(m1, s1, ns),
                self.missing_counts.wf(),
                self.missing_counts.map() == m2,
                self.mru_timestamps.wf(),
                self.mru_timestamps.map() == old(self).mru(),
                self.pending_deletion == old(self).pending_deletion,
                self.resurrectable_sessions@ == old(self).resurrectable(),
                forall|q: int|
                    0 <= q < doomed@.len() ==> is_doomed(m1, s1, ns, #[trigger] doomed@[q]@),
                forall|k: Seq<char>|
                    is_doomed(m1, s1, ns, k) ==> exists|q: int|
                        0 <= q < doomed@.len() && doomed@[q]@ == k,
            decreases s1.len() - i,
        {
            let key = lowercase(self.sessions[i].name.as_str());
            let gone = contains_text(&doomed, &key);
            if !gone {
                kept.push(self.sessions[i].duplicate());
            }
            proof {
                reveal(Seq::filter);
                let p1 = s1.take(i + 1);
                assert(p1.drop_last() =~= s1.take(i as int));
                assert(p1.last() == s1[i as int]);
                if gone {
                    let q = choose|q: int| 0 <= q < doomed@.len() && doomed@[q]@ == key@;
                    assert(is_doomed(m1, s1, ns, doomed@[q]@));
                } else {
                    if is_doomed(m1, s1, ns, key@) {
                        let q = choose|q: int| 0 <= q < doomed@.len() && doomed@[q]@ == key@;
                        assert(doomed@[q]@ == key@);
                    }
                }
                assert(key@ == key_of(s1[i as int]));
                assert(keep == survives(m1, s1, ns));
                assert(keep(s1[i as int]) == !is_doomed(m1, s1, ns, key_of(s1[i as int])));
                assert(keep(s1[i as int]) == !gone);
            }
            i = i + 1;
        }
        proof {
            assert(s1.take(s1.len() as int) =~= s1);
        }
        self.sessions = kept;
        let mut q: usize = 0;
        while q < doomed.len()
            invariant
                q <= doomed@.len(),
                self.sessions@ == s1.filter(keep),
                self.missing_counts.wf(),
                self.mru_timestamps.wf(),
                self.mru_timestamps.map() == old(self).mru(),
                self.pending_deletion == old(self).pending_deletion,
                self.resurrectable_sessions@ == old(self).resurrectable(),
                self.missing_counts.map() == Map::new(
                    |k: Seq<char>| m2.contains_key(k) && !listed(doomed@, q as int, k),
                    |k: Seq<char>| m2[k],
                ),
            decreases doomed@.len() - q,
        {
            self.missing_counts.remove(&doomed[q]);
            proof {
                let after = Map::new(
                    |k: Seq<char>| m2.contains_key(k) && !listed(doomed@, q + 1, k),
                    |k: Seq<char>| m2[k],
                );
                assert forall|k: Seq<char>|
                    #[trigger] listed(doomed@, q + 1, k) == (listed(doomed@, q as int, k)
                        || doomed@[q as int]@ == k) by {
                    if listed(doomed@, q + 1, k) {
                        let r = choose|r: int| 0 <= r < q + 1 && doomed@[r]@ == k;
                        if r < q {
                            assert(listed(doomed@, q as int, k));
                        }
                    }
                    if listed(doomed@, q as int, k) {
                        let r = choose|r: int| 0 <= r < q && doomed@[r]@ == k;
                        assert(doomed@[r]@ == k);
                    }
                    if doomed@[q as int]@ == k {
                        assert(doomed@[q as int]@ == k);
                    }
                }
                assert(self.missing_counts.map() =~= after);
            }
            q = q + 1;
        }
        proof {
            let fin = reconciled_missing(s0, m0, ns);
            assert forall|k: Seq<char>|
                #[trigger] listed(doomed@, doomed@.len() as int, k) == is_doomed(m1, s1, ns, k) by {
                if listed(doomed@, doomed@.len() as int, k) {
                    let r = choose|r: int| 0 <= r < doomed@.len() && doomed@[r]@ == k;
                    assert(is_doomed(m1, s1, ns, doomed@[r]@));
                }
                if is_doomed(m1, s1, ns, k) {
                    let r = choose|r: int| 0 <= r < doomed@.len() && doomed@[r]@ == k;
                    assert(doomed@[r]@ == k);
                }
            }
            assert(self.missing_counts.map() =~= fin);
            assert forall|k: Seq<char>| #[trigger] fin.contains_key(k) implies 1 <= fin[k]
                < MISSING_THRESHOLD by {
                if !is_absent(s1, ns, k) {
                    assert(old(self).missing().contains_key(k));
                } else {
                    assert(count_key(s1, k) > 0);
                    assert(1 <= tally(m1, s1, k) < 3);
                }
            }
            if doomed@.len() > 0 {
                assert(is_doomed(m1, s1, ns, doomed@[0]@));
            }
        }
        changed
    }

    /// A name for a new session that no session has: `base_name` itself when no
    /// live or resurrectable session has it; else the first of
    /// `base_name{separator}2` up to `base_name{separator}1000` that no live
    /// session has; else `base_name{separator}` followed by eight random
    /// hexadecimal digits.
    pub fn generate_incremented_name(&self, base_name: &str, separator: &str) -> (r: String)
        ensures
            !live_name_used(self.live(), base_name@) && !dead_name_used(
                self.resurrectable(),
                base_name@,
            ) ==> r@ == base_name@,
            live_name_used(self.live(), base_name@) || dead_name_used(
                self.resurrectable(),
                base_name@,
            ) ==> {
                &&& !taken_below(self.live(), base_name@, separator@, (LAST_PROBE + 1) as nat) ==> exists|
                    n: nat,
                |
                    2 <= n <= LAST_PROBE && taken_below(self.live(), base_name@, separator@, n)
                        && !live_name_used(self.live(), candidate(base_name@, separator@, n))
                        && r@ == candidate(base_name@, separator@, n)
                &&& taken_below(self.live(), base_name@, separator@, (LAST_PROBE + 1) as nat) ==> {
                    &&& r@.len() == base_name@.len() + separator@.len() + 8
                    &&& r@.subrange(0, (base_name@.len() + separator@.len()) as int) == base_name@
                        + separator@
                    &&& forall|i: int|
                        base_name@.len() + separator@.len() <= i < r@.len() ==> is_lower_hex(
                            #[trigger] r@[i],
                        )
                }
            },
    {
        let base = String::from_str(base_name);
        if !live_uses(&self.sessions, &base) && !dead_uses(&self.resurrectable_sessions, &base) {
            return base;
        }
        let mut counter: u32 = 2;
        while counter <= LAST_PROBE
            invariant
                2 <= counter <= LAST_PROBE + 1,
                live_name_used(self.live(), base_name@) || dead_name_used(
                    self.resurrectable(),
                    base_name@,
                ),
                taken_below(self.live(), base_name@, separator@, counter as nat),
            decreases LAST_PROBE + 1 - counter,
        {
            let mut name = String::from_str(base_name);
            name.append(separator);
            let digits = decimal_text(counter);
            name.append(digits.as_str());
            assert(name@ == candidate(base_name@, separator@, counter as nat));
            if !live_uses(&self.sessions, &name) {
                return name;
            }
            assert forall|j: nat| 2 <= j < counter + 1 implies live_name_used(
                self.live(),
                #[trigger] candidate(base_name@, separator@, j),
            ) by {
                if j < counter {
                    assert(live_name_used(self.live(), candidate(base_name@, separator@, j)));
                }
            }
            counter = counter + 1;
        }
        let id = random_uuid_text();
        let name = fallback_name(base_name, separator, id.as_str());
        proof {
            let pre = base_name@ + separator@;
            assert(name@.subrange(0, pre.len() as int) =~= pre);
            assert forall|i: int| pre.len() <= i < name@.len() implies is_lower_hex(
                #[trigger] name@[i],
            ) by {
                assert(name@[i] == id@[i - pre.len()]);
            }
        }
        name
    }

    /// Replaces the resurrectable sessions with `new_resurrectable` and tells
    /// whether the shown list changed: whether the sets of folded names differ.
    /// Durations are not compared.
    pub fn update_resurrectable_stable(&mut self, new_resurrectable: Vec<(String, Duration)>) -> (changed: bool)
        requires
            old(self).wf(),
        ensures
            final(self).wf(),
            changed == (folded_names(old(self).resurrectable()).to_set() != folded_names(
                new_resurrectable@,
            ).to_set()),
            final(self).resurrectable() == new_resurrectable@,
            final(self).live() == old(self).live(),
            final(self).pending() == old(self).pending(),
            final(self).missing() == old(self).missing(),
            final(self).mru() == old(self).mru(),
    {
        let current_names = fold_names(&self.resurrectable_sessions);
        let new_names = fold_names(&new_resurrectable);
        let changed = !same_texts(&current_names, &new_names);
        self.resurrectable_sessions = new_resurrectable;
        assert(self.missing() == old(self).missing());
        changed
    }

    /// The host command that `action` comes to: a switch as it is; a kill
    /// deletes the session when a resurrectable session has its name (compared
    /// without case), and kills the live session otherwise.
    pub fn execute_action(&self, action: SessionAction) -> (r: HostCommand)
        ensures
            r == command_for(action, self.resurrectable()),
    {
        match action {
            SessionAction::Switch(name) => HostCommand::Switch(name),
            SessionAction::Kill(name) => {
                let key = lowercase(name.as_str());
                if has_dead_key(&self.resurrectable_sessions, &key) {
                    HostCommand::DeleteDead(name)
                } else {
                    HostCommand::KillLive(name)
                }
            },
        }
    }

    /// Asks for confirmation before `session_name` is killed, in place of any
    /// earlier request.
    pub fn start_deletion(&mut self, session_name: String)
        requires
            old(self).wf(),
        ensures
            final(self).wf(),
            final(self).pending() == Some(session_name),
            final(self).live() == old(self).live(),
            final(self).resurrectable() == old(self).resurrectable(),
            final(self).missing() == old(self).missing(),
            final(self).mru() == old(self).mru(),
    {
        self.pending_deletion = Some(session_name);
        assert(self.missing() == old(self).missing());
    }

    /// Drops the request for confirmation, if any.
    pub fn cancel_deletion(&mut self)
        requires
            old(self).wf(),
        ensures
            final(self).wf(),
            final(self).pending() == None::<String>,
            final(self).live() == old(self).live(),
            final(self).resurrectable() == old(self).resurrectable(),
            final(self).missing() == old(self).missing(),
            final(self).mru() == old(self).mru(),
    {
        self.pending_deletion = None;
        assert(self.missing() == old(self).missing());
    }

    /// The name awaiting confirmation of its deletion.
    pub fn pending_deletion(&self) -> (r: Option<&str>)
        ensures
            r is Some == self.pending() is Some,
            r is Some ==> r.unwrap()@ == self.pending().unwrap()@,
    {
        match &self.pending_deletion {
            Some(name) => Some(name.as_str()),
            None => None,
        }
    }

    /// Removes every live and resurrectable session whose name folds to that
    /// of `session_name`, and its miss count, at once.
    pub fn remove_session_from_local_state(&mut self, session_name: &str)
        requires
            old(self).wf(),
        ensures
            final(self).wf(),
            final(self).live() == old(self).live().filter(other_identity(lower_of(session_name@))),
            final(self).resurrectable() == old(self).resurrectable().filter(
                other_folded_name(lower_of(session_name@)),
            ),
            final(self).missing() == old(self).missing().remove(lower_of(session_name@)),
            final(self).pending() == old(self).pending(),
            final(self).mru() == old(self).mru(),
    {
        let key = lowercase(session_name);
        let ghost keep_live = other_identity(key@);
        let ghost keep_dead = other_folded_name(key@);
        let ghost s0 = self.sessions@;
        let ghost d0 = self.resurrectable_sessions@;
        let mut live: Vec<SessionInfo> = Vec::new();
        let mut i: usize = 0;
        proof {
            reveal(Seq::filter);
            assert(s0.take(0).filter(keep_live) =~= Seq::<SessionInfo>::empty());
        }
        while i < self.sessions.len()
            invariant
                self.sessions@ == s0,
                i <= s0.len(),
                keep_live == other_identity(key@),
                live@ == s0.take(i as int).filter(keep_live),
            decreases s0.len() - i,
        {
            let stays = lowercase(self.sessions[i].name.as_str()) != key;
            if stays {
                live.push(self.sessions[i].duplicate());
            }
            proof {
                reveal(Seq::filter);
                assert(s0.take(i + 1).drop_last() =~= s0.take(i as int));
                assert(s0.take(i + 1).last() == s0[i as int]);
                assert(keep_live(s0[i as int]) == stays);
            }
            i = i + 1;
        }
        proof {
            assert(s0.take(s0.len() as int) =~= s0);
        }
        let mut dead: Vec<(String, Duration)> = Vec::new();
        let mut i: usize = 0;
        proof {
            reveal(Seq::filter);
            assert(d0.take(0).filter(keep_dead) =~= Seq::<(String, Duration)>::empty());
        }
        while i < self.resurrectable_sessions.len()
            invariant
                self.resurrectable_sessions@ == d0,
                i <= d0.len(),
                keep_dead == other_folded_name(key@),
                dead@ == d0.take(i as int).filter(keep_dead),
            decreases d0.len() - i,
        {
            let stays = lowercase(self.resurrectable_sessions[i].0.as_str()) != key;
            if stays {
                let entry = (self.resurrectable_sessions[i].0.clone(), self.resurrectable_sessions[i].1);
                dead.push(entry);
            }
            proof {
                reveal(Seq::filter);
                assert(d0.take(i + 1).drop_last() =~= d0.take(i as int));
                assert(d0.take(i + 1).last() == d0[i as int]);
                assert(keep_dead(d0[i as int]) == stays);
            }
            i = i + 1;
        }
        proof {
            assert(d0.take(d0.len() as int) =~= d0);
        }
        self.sessions = live;
        self.resurrectable_sessions = dead;
        self.missing_counts.remove(&key);
        assert forall|k: Seq<char>| #[trigger] self.missing().contains_key(k) implies 1
            <= self.missing()[k] < MISSING_THRESHOLD by {
            assert(old(self).missing().contains_key(k));
        }
    }

    /// Carries out the pending deletion, if any: the session leaves the local
    /// view at once (see `remove_session_from_local_state`) and the kill
    /// command for it, chosen by the resurrectable sessions as they were
    /// before, is handed back for the host.
    pub fn confirm_deletion(&mut self) -> (r: Option<HostCommand>)
        requires
            old(self).wf(),
        ensures
            final(self).wf(),
            final(self).pending() == None::<String>,
            final(self).mru() == old(self).mru(),
            old(self).pending() is None ==> {
                &&& r is None
                &&& final(self).live() == old(self).live()
                &&& final(self).resurrectable() == old(self).resurrectable()
                &&& final(self).missing() == old(self).missing()
            },
            old(self).pending() is Some ==> {
                let name = old(self).pending().unwrap();
                let k = lower_of(name@);
                &&& r == Some(command_for(SessionAction::Kill(name), old(self).resurrectable()))
                &&& final(self).live() == old(self).live().filter(other_identity(k))
                &&& final(self).resurrectable() == old(self).resurrectable().filter(
                    other_folded_name(k),
                )
                &&& final(self).missing() == old(self).missing().remove(k)
            },
    {
        match self.pending_deletion.take() {
            Some(name) => {
                assert(self.missing() == old(self).missing());
                let command = self.execute_action(SessionAction::Kill(name.clone()));
                self.remove_session_from_local_state(name.as_str());
                Some(command)
            },
            None => {
                assert(self.missing() == old(self).missing());
                None
            },
        }
    }

    /// Renames the first live session whose name folds to that of `old_name`,
    /// ahead of the host. The MRU entry stored under exactly `old_name` moves to
    /// `new_name` (when there is none, `new_name` loses any entry of its own, so
    /// that it ranks as `old_name` did), and the miss counts of both folded
    /// names are cleared.
    pub fn rename_session_in_local_state(&mut self, old_name: &str, new_name: &str)
        requires
            old(self).wf(),
        ensures
            final(self).wf(),
            renamed_first(old(self).live(), final(self).live(), lower_of(old_name@), new_name@),
            final(self).mru() == moved_entry(old(self).mru(), old_name@, new_name@),
            rank(final(self).mru(), new_name@) == rank(old(self).mru(), old_name@),
            old_name@ != new_name@ ==> !final(self).mru().contains_key(old_name@),
            final(self).missing() == old(self).missing().remove(lower_of(old_name@)).remove(
                lower_of(new_name@),
            ),
            final(self).resurrectable() == old(self).resurrectable(),
            final(self).pending() == old(self).pending(),
    {
        let old_key = lowercase(old_name);
        let new_key = lowercase(new_name);
        match position_of_key(&self.sessions, &old_key) {
            Some(i) => {
                let renamed = SessionInfo {
                    name: String::from_str(new_name),
                    is_current_session: self.sessions[i].is_current_session,
                };
                self.sessions.set(i, renamed);
            },
            None => {},
        }
        let old_text = String::from_str(old_name);
        match self.mru_timestamps.remove(&old_text) {
            Some(timestamp) => {
                self.mru_timestamps.insert(String::from_str(new_name), timestamp);
            },
            None => {
                self.mru_timestamps.remove(&String::from_str(new_name));
            },
        }
        self.missing_counts.remove(&old_key);
        self.missing_counts.remove(&new_key);
        assert forall|k: Seq<char>| #[trigger] self.missing().contains_key(k) implies 1
            <= self.missing()[k] < MISSING_THRESHOLD by {
            assert(old(self).missing().contains_key(k));
        }
    }

    /// Stamps `session_name` with the clock's reading in epoch seconds (0 when
    /// the clock cannot be read), in place of any earlier stamp, and returns it.
    pub fn record_switch(&mut self, session_name: &str) -> (r: u64)
        requires
            old(self).wf(),
        ensures
            final(self).wf(),
            final(self).mru() == old(self).mru().insert(session_name@, r),
            final(self).live() == old(self).live(),
            final(self).resurrectable() == old(self).resurrectable(),
            final(self).missing() == old(self).missing(),
            final(self).pending() == old(self).pending(),
    {
        let clock = match since_epoch(&clock_now()) {
            Some(elapsed) => Some(whole_seconds(&elapsed)),
            None => None,
        };
        self.record_switch_at(session_name, clock)
    }

    /// Stamps `session_name` with the clock reading `clock` in epoch seconds,
    /// 0 when the clock could not be read (`None`), in place of any earlier
    /// stamp, and returns the stamp.
    pub fn record_switch_at(&mut self, session_name: &str, clock: Option<u64>) -> (r: u64)
        requires
            old(self).wf(),
        ensures
            r == match clock {
                Some(t) => t,
                None => 0,
            },
            final(self).wf(),
            final(self).mru() == old(self).mru().insert(session_name@, r),
            final(self).live() == old(self).live(),
            final(self).resurrectable() == old(self).resurrectable(),
            final(self).missing() == old(self).missing(),
            final(self).pending() == old(self).pending(),
    {
        let timestamp = match clock {
            Some(t) => t,
            None => 0,
        };
        self.mru_timestamps.insert(String::from_str(session_name), timestamp);
        assert(self.missing() == old(self).missing());
        timestamp
    }

    /// Replaces the MRU table by `timestamps`; where a name occurs twice the
    /// later entry counts.
    pub fn set_mru_timestamps(&mut self, timestamps: Vec<(String, u64)>)
        requires
            old(self).wf(),
        ensures
            final(self).wf(),
            final(self).mru() == map_of_pairs(timestamps@),
            final(self).live() == old(self).live(),
            final(self).resurrectable() == old(self).resurrectable(),
            final(self).missing() == old(self).missing(),
            final(self).pending() == old(self).pending(),
    {
        self.mru_timestamps = NameTable::from_pairs(timestamps);
        assert(self.missing() == old(self).missing());
    }

    /// The MRU table, each name once.
    pub fn mru_timestamps(&self) -> (r: &[(String, u64)])
        requires
            self.wf(),
        ensures
            lists(r@, self.mru()),
    {
        self.mru_timestamps.pairs()
    }

    /// The last switch time of `session_name` (exact name), 0 when it has none.
    pub fn get_mru_rank(&self, session_name: &str) -> (r: u64)
        requires
            self.wf(),
        ensures
            r == rank(self.mru(), session_name@),
    {
        match self.mru_timestamps.get(&String::from_str(session_name)) {
            Some(t) => t,
            None => 0,
        }
    }

    /// The live sessions.
    pub fn sessions(&self) -> (r: &[SessionInfo])
        ensures
            r@ == self.live(),
    {
        self.sessions.as_slice()
    }

    /// The resurrectable sessions with their time since death.
    pub fn resurrectable_sessions(&self) -> (r: &[(String, Duration)])
        ensures
            r@ == self.resurrectable(),
    {
        self.resurrectable_sessions.as_slice()
    }

    /// An engine that knows no session.
    pub fn new() -> (r: Self)
        ensures
            r.wf(),
            r.live() == Seq::<SessionInfo>::empty(),
            r.resurrectable() == Seq::<(String, Duration)>::empty(),
            r.pending() == None::<String>,
            r.missing() == Map::<Seq<char>, u8>::empty(),
            r.mru() == Map::<Seq<char>, u64>::empty(),
    {
        SessionManager {
            sessions: Vec::new(),
            pending_deletion: None,
            resurrectable_sessions: Vec::new(),
            missing_counts: NameTable::new(),
            mru_timestamps: NameTable::new(),
        }
    }
}

impl Default for SessionManager {
    fn default() -> (r: Self)
        ensures
            r.wf(),
            r.live() == Seq::<SessionInfo>::empty(),
            r.resurrectable() == Seq::<(String, Duration)>::empty(),
            r.pending() == None::<String>,
            r.missing() == Map::<Seq<char>, u8>::empty(),
            r.mru() == Map::<Seq<char>, u64>::empty(),
    {
        SessionManager::new()
    }
}

} // verus!
