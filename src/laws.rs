//! Laws of the engine that relate its operations, stated over the models that
//! their contracts use, and proved.

use crate::manager::{
    MISSING_THRESHOLD, base_count, counts_in_range, is_absent, count_key, is_doomed, absorb, absorb_all, absorb_all_changes, absorb_changes, first_with_key, folded_names,
    has_folded_name, has_key, key_of, lemma_has_key_push, moved_entry, other_folded_name,
    other_identity, rank, reconcile_changes, reconciled_missing, reconciled_sessions, survives,
    without_reported,
};
use crate::text::lower_of;
use crate::types::SessionInfo;
use std::time::Duration;
use vstd::prelude::*;

verus! {

broadcast use vstd::seq_lib::group_filter_ensures;

// ---------------------------------------------------------------------------
// Facts about the reconciliation model.

/// `first_with_key` is the least index of its identity.
proof fn lemma_first_with_key(list: Seq<SessionInfo>, k: Seq<char>)
    requires
        has_key(list, k),
    ensures
        0 <= first_with_key(list, k) < list.len(),
        key_of(list[first_with_key(list, k)]) == k,
        forall|j: int| 0 <= j < first_with_key(list, k) ==> key_of(#[trigger] list[j]) != k,
    decreases list.len(),
{
    let init = list.drop_last();
    if has_key(init, k) {
        lemma_first_with_key(init, k);
        let f = first_with_key(init, k);
        assert(list[f] == init[f]);
        assert forall|j: int| 0 <= j < f implies key_of(#[trigger] list[j]) != k by {
            assert(list[j] == init[j]);
        }
    } else {
        let l = list.len() - 1;
        assert forall|j: int| 0 <= j < l implies key_of(#[trigger] list[j]) != k by {
            assert(list[j] == init[j]);
        }
        if key_of(list[l]) != k {
            let i = choose|i: int| 0 <= i < list.len() && key_of(list[i]) == k;
            assert(list[i] == init[i]);
        }
    }
}

/// Absorbing a record keeps every identity and adds that of the record; it
/// adds no other.
proof fn lemma_absorb_keys(list: Seq<SessionInfo>, n: SessionInfo, k: Seq<char>)
    ensures
        has_key(absorb(list, n), k) == (has_key(list, k) || key_of(n) == k),
{
    let after = absorb(list, n);
    if has_key(list, key_of(n)) {
        lemma_first_with_key(list, key_of(n));
        let i = first_with_key(list, key_of(n));
        assert(key_of(after[i]) == key_of(list[i]));
        if has_key(list, k) {
            let j = choose|j: int| 0 <= j < list.len() && key_of(list[j]) == k;
            assert(key_of(after[j]) == key_of(list[j]));
        }
        if has_key(after, k) {
            let j = choose|j: int| 0 <= j < after.len() && key_of(after[j]) == k;
            assert(key_of(after[j]) == key_of(list[j]));
        }
    } else {
        if has_key(list, k) {
            let j = choose|j: int| 0 <= j < list.len() && key_of(list[j]) == k;
            assert(after[j] == list[j]);
        }
        assert(after[list.len() as int] == n);
        if has_key(after, k) {
            let j = choose|j: int| 0 <= j < after.len() && key_of(after[j]) == k;
            if j < list.len() {
                assert(after[j] == list[j]);
            }
        }
    }
}

/// The identities after a snapshot are those before and those it reports.
proof fn lemma_absorb_all_keys(s: Seq<SessionInfo>, ns: Seq<SessionInfo>, k: Seq<char>)
    ensures
        has_key(absorb_all(s, ns), k) == (has_key(s, k) || has_key(ns, k)),
    decreases ns.len(),
{
    if ns.len() > 0 {
        let init = ns.drop_last();
        lemma_absorb_all_keys(s, init, k);
        lemma_absorb_keys(absorb_all(s, init), ns.last(), k);
        assert(ns =~= init.push(ns.last()));
        lemma_has_key_push(init, ns.last(), k);
    }
}

/// A change seen while absorbing a prefix of a snapshot is a change of the
/// whole snapshot.
proof fn lemma_changes_prefix(s: Seq<SessionInfo>, ns: Seq<SessionInfo>, j: int)
    requires
        0 <= j <= ns.len(),
        absorb_all_changes(s, ns.take(j)),
    ensures
        absorb_all_changes(s, ns),
    decreases ns.len() - j,
{
    if j < ns.len() {
        let init = ns.drop_last();
        assert(init.take(j) =~= ns.take(j));
        if j < init.len() {
            lemma_changes_prefix(s, init, j);
        } else {
            assert(init =~= ns.take(j));
        }
    } else {
        assert(ns.take(j) =~= ns);
    }
}

/// A reported identity is never doomed, and its records all stay.
proof fn lemma_reported_stays(s: Seq<SessionInfo>, m: Map<Seq<char>, u8>, ns: Seq<SessionInfo>, k: Seq<char>)
    requires
        has_key(ns, k),
    ensures
        has_key(reconciled_sessions(s, m, ns), k),
        !reconciled_missing(s, m, ns).contains_key(k),
{
    let s1 = absorb_all(s, ns);
    let m1 = without_reported(m, ns);
    lemma_absorb_all_keys(s, ns, k);
    let i = choose|i: int| 0 <= i < s1.len() && key_of(s1[i]) == k;
    let keep = survives(m1, s1, ns);
    assert(keep(s1[i]));
    s1.lemma_filter_contains(keep, i);
    let f = s1.filter(keep);
    let j = choose|j: int| 0 <= j < f.len() && f[j] == s1[i];
    assert(key_of(f[j]) == k);
}

/// An index that holds identity `k` with none before it is the first.
proof fn lemma_first_is(list: Seq<SessionInfo>, k: Seq<char>, i: int)
    requires
        0 <= i < list.len(),
        key_of(list[i]) == k,
        forall|j: int| 0 <= j < i ==> key_of(#[trigger] list[j]) != k,
    ensures
        first_with_key(list, k) == i,
{
    lemma_first_with_key(list, k);
}

/// Replacing a record by one of the same identity keeps every count.
proof fn lemma_count_update(list: Seq<SessionInfo>, i: int, r: SessionInfo, k: Seq<char>)
    requires
        0 <= i < list.len(),
        key_of(r) == key_of(list[i]),
    ensures
        count_key(list.update(i, r), k) == count_key(list, k),
    decreases list.len(),
{
    let after = list.update(i, r);
    if i == list.len() - 1 {
        assert(after.drop_last() =~= list.drop_last());
    } else {
        lemma_count_update(list.drop_last(), i, r, k);
        assert(after.drop_last() =~= list.drop_last().update(i, r));
    }
}

/// Absorbing a record of another identity keeps the count of `k`.
proof fn lemma_count_absorb(list: Seq<SessionInfo>, n: SessionInfo, k: Seq<char>)
    requires
        key_of(n) != k,
    ensures
        count_key(absorb(list, n), k) == count_key(list, k),
{
    if has_key(list, key_of(n)) {
        lemma_first_with_key(list, key_of(n));
        let i = first_with_key(list, key_of(n));
        lemma_count_update(
            list,
            i,
            SessionInfo { name: list[i].name, is_current_session: n.is_current_session },
            k,
        );
    } else {
        assert(list.push(n).drop_last() =~= list);
    }
}

/// A snapshot that does not report `k` keeps the count of `k`.
proof fn lemma_count_absorb_all(s: Seq<SessionInfo>, ns: Seq<SessionInfo>, k: Seq<char>)
    requires
        !has_key(ns, k),
    ensures
        count_key(absorb_all(s, ns), k) == count_key(s, k),
    decreases ns.len(),
{
    if ns.len() > 0 {
        let init = ns.drop_last();
        assert(ns =~= init.push(ns.last()));
        lemma_has_key_push(init, ns.last(), k);
        lemma_count_absorb_all(s, init, k);
        lemma_count_absorb(absorb_all(s, init), ns.last(), k);
    }
}

/// A positive count has a record.
proof fn lemma_count_has_key(list: Seq<SessionInfo>, k: Seq<char>)
    ensures
        (count_key(list, k) > 0) == has_key(list, k),
    decreases list.len(),
{
    if list.len() > 0 {
        let init = list.drop_last();
        lemma_count_has_key(init, k);
        assert(list =~= init.push(list.last()));
        lemma_has_key_push(init, list.last(), k);
    }
}

/// Filtering with a test that every element passes keeps the sequence.
proof fn lemma_filter_all<A>(s: Seq<A>, p: spec_fn(A) -> bool)
    requires
        forall|i: int| 0 <= i < s.len() ==> p(#[trigger] s[i]),
    ensures
        s.filter(p) == s,
    decreases s.len(),
{
    reveal(Seq::filter);
    if s.len() > 0 {
        let init = s.drop_last();
        assert forall|i: int| 0 <= i < init.len() implies p(#[trigger] init[i]) by {
            assert(init[i] == s[i]);
        }
        lemma_filter_all(init, p);
        assert(s =~= init.push(s.last()));
    }
}

/// No record of a filtered list has an identity that the filter rejects.
proof fn lemma_filter_drops_key(list: Seq<SessionInfo>, p: spec_fn(SessionInfo) -> bool, k: Seq<char>)
    requires
        forall|r: SessionInfo| key_of(r) == k ==> !p(r),
    ensures
        !has_key(list.filter(p), k),
{
    let f = list.filter(p);
    if has_key(f, k) {
        let j = choose|j: int| 0 <= j < f.len() && key_of(f[j]) == k;
        assert(p(f[j]));
    }
}

/// Identities of `list` are pairwise distinct.
pub open spec fn distinct_keys(list: Seq<SessionInfo>) -> bool {
    forall|i: int, j: int|
        0 <= i < list.len() && 0 <= j < list.len() && i != j ==> key_of(#[trigger] list[i])
            != key_of(#[trigger] list[j])
}


// ---------------------------------------------------------------------------
// Laws.

/// A session whose identity the engine does not know yet, reported by a
/// snapshot, is in the live sessions afterwards, and the snapshot reports a
/// change.
pub proof fn law_new_session_added(
    s: Seq<SessionInfo>,
    m: Map<Seq<char>, u8>,
    ns: Seq<SessionInfo>,
    idx: int,
)
    requires
        0 <= idx < ns.len(),
        !has_key(s, key_of(ns[idx])),
    ensures
        has_key(reconciled_sessions(s, m, ns), key_of(ns[idx])),
        reconcile_changes(s, m, ns),
{
    let k = key_of(ns[idx]);
    assert(has_key(ns, k));
    lemma_reported_stays(s, m, ns, k);
    lemma_first_with_key(ns, k);
    let j = first_with_key(ns, k);
    let pre = ns.take(j);
    assert forall|q: int| 0 <= q < pre.len() implies key_of(#[trigger] pre[q]) != k by {
        assert(pre[q] == ns[q]);
    }
    lemma_absorb_all_keys(s, pre, k);
    let t = ns.take(j + 1);
    assert(t.drop_last() =~= pre);
    assert(t.last() == ns[j]);
    assert(absorb_changes(absorb_all(s, pre), ns[j]));
    lemma_changes_prefix(s, ns, j + 1);
}

/// A session that a snapshot reports has no miss count afterwards and stays:
/// reappearing resets the debounce.
pub proof fn law_reported_session_resets(
    s: Seq<SessionInfo>,
    m: Map<Seq<char>, u8>,
    ns: Seq<SessionInfo>,
    k: Seq<char>,
)
    requires
        has_key(ns, k),
    ensures
        !reconciled_missing(s, m, ns).contains_key(k),
        has_key(reconciled_sessions(s, m, ns), k),
{
    lemma_reported_stays(s, m, ns, k);
}

/// The resurrectable list reports no change when every folded name of each
/// list occurs in the other, whatever the durations, order and repeats.
pub proof fn law_resurrectable_names_only(
    before: Seq<(String, Duration)>,
    after: Seq<(String, Duration)>,
)
    requires
        forall|i: int|
            0 <= i < before.len() ==> folded_names(after).contains(
                #[trigger] folded_names(before)[i],
            ),
        forall|i: int|
            0 <= i < after.len() ==> folded_names(before).contains(
                #[trigger] folded_names(after)[i],
            ),
    ensures
        folded_names(before).to_set() == folded_names(after).to_set(),
{
    let a = folded_names(before);
    let b = folded_names(after);
    assert forall|x: Seq<char>| a.to_set().contains(x) == b.to_set().contains(x) by {
        if a.contains(x) {
            let i = choose|i: int| 0 <= i < a.len() && a[i] == x;
            assert(b.contains(a[i]));
        }
        if b.contains(x) {
            let i = choose|i: int| 0 <= i < b.len() && b[i] == x;
            assert(a.contains(b[i]));
        }
    }
    assert(a.to_set() =~= b.to_set());
}

/// Once the pending deletion of `name` is confirmed, no live session,
/// resurrectable session or miss count of its folded name is left.
pub proof fn law_confirmed_deletion_clears(
    live: Seq<SessionInfo>,
    dead: Seq<(String, Duration)>,
    missing: Map<Seq<char>, u8>,
    name: Seq<char>,
)
    ensures
        !has_key(live.filter(other_identity(lower_of(name))), lower_of(name)),
        !has_folded_name(dead.filter(other_folded_name(lower_of(name))), lower_of(name)),
        !missing.remove(lower_of(name)).contains_key(lower_of(name)),
{
    let k = lower_of(name);
    let f = live.filter(other_identity(k));
    if has_key(f, k) {
        let i = choose|i: int| 0 <= i < f.len() && key_of(f[i]) == k;
        assert(other_identity(k)(f[i]));
    }
    let g = dead.filter(other_folded_name(k));
    if has_folded_name(g, k) {
        let i = choose|i: int| 0 <= i < g.len() && lower_of(g[i].0@) == k;
        assert(other_folded_name(k)(g[i]));
    }
}

/// A rename moves the MRU rank: the new name ranks as the old one did, the
/// old name has rank 0, and every other name keeps its rank.
pub proof fn law_rename_moves_rank(m: Map<Seq<char>, u64>, from: Seq<char>, to: Seq<char>)
    requires
        from != to,
    ensures
        rank(moved_entry(m, from, to), to) == rank(m, from),
        rank(moved_entry(m, from, to), from) == 0,
        forall|k: Seq<char>| k != from && k != to ==> #[trigger] rank(moved_entry(m, from, to), k)
            == rank(m, k),
{
}

/// A live session that a snapshot leaves out gets one miss for each record of
/// its identity. It stays while its misses stay under the threshold; once they
/// reach it (at the latest on the third miss in a row) it goes, with its count,
/// and the snapshot reports a change.
pub proof fn law_absence_debounced(
    s: Seq<SessionInfo>,
    m: Map<Seq<char>, u8>,
    ns: Seq<SessionInfo>,
    k: Seq<char>,
)
    requires
        counts_in_range(m),
        has_key(s, k),
        !has_key(ns, k),
    ensures
        base_count(m, k) + count_key(s, k) < MISSING_THRESHOLD ==> {
            &&& has_key(reconciled_sessions(s, m, ns), k)
            &&& reconciled_missing(s, m, ns).contains_key(k)
            &&& reconciled_missing(s, m, ns)[k] == base_count(m, k) + count_key(s, k)
        },
        base_count(m, k) + count_key(s, k) >= MISSING_THRESHOLD ==> {
            &&& !has_key(reconciled_sessions(s, m, ns), k)
            &&& !reconciled_missing(s, m, ns).contains_key(k)
            &&& reconcile_changes(s, m, ns)
        },
        base_count(m, k) + 1 == MISSING_THRESHOLD ==> !has_key(reconciled_sessions(s, m, ns), k),
{
    let s1 = absorb_all(s, ns);
    let m1 = without_reported(m, ns);
    lemma_count_has_key(s, k);
    lemma_count_absorb_all(s, ns, k);
    assert(base_count(m1, k) == base_count(m, k));
    let keep = survives(m1, s1, ns);
    if base_count(m, k) + count_key(s, k) < MISSING_THRESHOLD {
        assert(!is_doomed(m1, s1, ns, k));
        lemma_count_has_key(s1, k);
        let i = choose|i: int| 0 <= i < s1.len() && key_of(s1[i]) == k;
        assert(keep(s1[i]));
        s1.lemma_filter_contains(keep, i);
        let f = s1.filter(keep);
        let j = choose|j: int| 0 <= j < f.len() && f[j] == s1[i];
        assert(key_of(f[j]) == k);
    } else {
        assert(is_doomed(m1, s1, ns, k));
        lemma_filter_drops_key(s1, keep, k);
    }
}

/// A snapshot that reports nothing, to an engine whose sessions have distinct
/// identities none of which is at its last miss, keeps every session and
/// reports no change.
pub proof fn law_quiet_absence(s: Seq<SessionInfo>, m: Map<Seq<char>, u8>)
    requires
        counts_in_range(m),
        distinct_keys(s),
        forall|i: int| 0 <= i < s.len() ==> base_count(m, key_of(#[trigger] s[i])) + 1
            < MISSING_THRESHOLD,
    ensures
        reconciled_sessions(s, m, Seq::empty()) == s,
        !reconcile_changes(s, m, Seq::empty()),
{
    let ns = Seq::<SessionInfo>::empty();
    let m1 = without_reported(m, ns);
    assert(absorb_all(s, ns) == s);
    assert forall|k: Seq<char>| !is_doomed(m1, s, ns, k) by {
        if count_key(s, k) > 0 {
            lemma_count_has_key(s, k);
            let i = choose|i: int| 0 <= i < s.len() && key_of(s[i]) == k;
            lemma_count_one(s, i);
            assert(base_count(m1, k) == base_count(m, k));
        }
    }
    lemma_filter_all(s, survives(m1, s, ns));
}

/// In a list of distinct identities, each identity occurs once.
proof fn lemma_count_one(list: Seq<SessionInfo>, i: int)
    requires
        distinct_keys(list),
        0 <= i < list.len(),
    ensures
        count_key(list, key_of(list[i])) == 1,
    decreases list.len(),
{
    let init = list.drop_last();
    let k = key_of(list[i]);
    assert(distinct_keys(init)) by {
        assert forall|a: int, b: int|
            0 <= a < init.len() && 0 <= b < init.len() && a != b implies key_of(
            #[trigger] init[a],
        ) != key_of(#[trigger] init[b]) by {
            assert(init[a] == list[a]);
            assert(init[b] == list[b]);
        }
    }
    if i == list.len() - 1 {
        if has_key(init, k) {
            let j = choose|j: int| 0 <= j < init.len() && key_of(init[j]) == k;
            assert(init[j] == list[j]);
        }
        lemma_count_has_key(init, k);
    } else {
        assert(init[i] == list[i]);
        lemma_count_one(init, i);
    }
}

/// A one-record snapshot that flips the current flag of a known session
/// reports a change.
pub proof fn law_current_flag_change(s: Seq<SessionInfo>, m: Map<Seq<char>, u8>, n: SessionInfo)
    requires
        has_key(s, key_of(n)),
        s[first_with_key(s, key_of(n))].is_current_session != n.is_current_session,
    ensures
        reconcile_changes(s, m, seq![n]),
{
    let ns = seq![n];
    assert(ns.drop_last() =~= Seq::<SessionInfo>::empty());
    assert(ns.last() == n);
    assert(absorb_all(s, ns.drop_last()) == s);
}

/// After absorbing a snapshot of distinct identities, the first record of each
/// reported identity carries the flag that the snapshot gave it.
proof fn lemma_absorb_all_flags(s: Seq<SessionInfo>, ns: Seq<SessionInfo>, j: int)
    requires
        distinct_keys(ns),
        0 <= j < ns.len(),
    ensures
        has_key(absorb_all(s, ns), key_of(ns[j])),
        absorb_all(s, ns)[first_with_key(absorb_all(s, ns), key_of(ns[j]))].is_current_session
            == ns[j].is_current_session,
    decreases ns.len(),
{
    let init = ns.drop_last();
    let n = ns.last();
    let kn = key_of(n);
    let l = absorb_all(s, init);
    let l2 = absorb_all(s, ns);
    assert(l2 == absorb(l, n));
    let kj = key_of(ns[j]);
    lemma_absorb_all_keys(s, ns, kj);
    assert(has_key(ns, kj));
    if has_key(l, kn) {
        lemma_first_with_key(l, kn);
        let i = first_with_key(l, kn);
        assert forall|q: int| 0 <= q < l.len() implies key_of(#[trigger] l2[q]) == key_of(l[q]) by {}
        if j == ns.len() - 1 {
            assert forall|q: int| 0 <= q < i implies key_of(#[trigger] l2[q]) != kn by {
                assert(key_of(l2[q]) == key_of(l[q]));
            }
            lemma_first_is(l2, kn, i);
        } else {
            assert(distinct_keys(init)) by {
                assert forall|a: int, b: int|
                    0 <= a < init.len() && 0 <= b < init.len() && a != b implies key_of(
                    #[trigger] init[a],
                ) != key_of(#[trigger] init[b]) by {
                    assert(init[a] == ns[a]);
                    assert(init[b] == ns[b]);
                }
            }
            assert(init[j] == ns[j]);
            lemma_absorb_all_flags(s, init, j);
            lemma_first_with_key(l, kj);
            let f = first_with_key(l, kj);
            assert(kj != kn);
            assert forall|q: int| 0 <= q < f implies key_of(#[trigger] l2[q]) != kj by {
                assert(key_of(l2[q]) == key_of(l[q]));
                assert(key_of(l[q]) != kj);
            }
            assert(key_of(l2[f]) == key_of(l[f]));
            lemma_first_is(l2, kj, f);
            assert(f != i);
            assert(l2[f] == l[f]);
        }
    } else {
        assert(l2 == l.push(n));
        if j == ns.len() - 1 {
            assert forall|q: int| 0 <= q < l.len() implies key_of(#[trigger] l2[q]) != kn by {
                assert(l2[q] == l[q]);
            }
            lemma_first_is(l2, kn, l.len() as int);
        } else {
            assert(distinct_keys(init)) by {
                assert forall|a: int, b: int|
                    0 <= a < init.len() && 0 <= b < init.len() && a != b implies key_of(
                    #[trigger] init[a],
                ) != key_of(#[trigger] init[b]) by {
                    assert(init[a] == ns[a]);
                    assert(init[b] == ns[b]);
                }
            }
            assert(init[j] == ns[j]);
            lemma_absorb_all_flags(s, init, j);
            lemma_first_with_key(l, kj);
            let f = first_with_key(l, kj);
            assert forall|q: int| 0 <= q < f implies key_of(#[trigger] l2[q]) != kj by {
                assert(l2[q] == l[q]);
            }
            assert(l2[f] == l[f]);
            lemma_first_is(l2, kj, f);
        }
    }
}

/// Absorbing again a snapshot of distinct identities whose flags the list
/// already carries changes nothing.
proof fn lemma_absorb_all_settled(l: Seq<SessionInfo>, ns: Seq<SessionInfo>)
    requires
        forall|j: int|
            0 <= j < ns.len() ==> has_key(l, key_of(#[trigger] ns[j]))
                && l[first_with_key(l, key_of(ns[j]))].is_current_session
                == ns[j].is_current_session,
    ensures
        absorb_all(l, ns) == l,
        !absorb_all_changes(l, ns),
    decreases ns.len(),
{
    if ns.len() > 0 {
        let init = ns.drop_last();
        assert forall|j: int| 0 <= j < init.len() implies has_key(l, key_of(#[trigger] init[j]))
            && l[first_with_key(l, key_of(init[j]))].is_current_session
            == init[j].is_current_session by {
            assert(init[j] == ns[j]);
        }
        lemma_absorb_all_settled(l, init);
        let n = ns.last();
        assert(ns[ns.len() - 1] == n);
        lemma_first_with_key(l, key_of(n));
        let i = first_with_key(l, key_of(n));
        assert(l.update(i, SessionInfo { name: l[i].name, is_current_session: n.is_current_session })
            =~= l);
    }
}

/// A snapshot of distinct identities that reports every known session, given
/// twice in a row, reports no change the second time and leaves the sessions
/// and miss counts as they were.
pub proof fn law_repeated_snapshot_quiet(
    s: Seq<SessionInfo>,
    m: Map<Seq<char>, u8>,
    ns: Seq<SessionInfo>,
)
    requires
        distinct_keys(ns),
        forall|i: int| 0 <= i < s.len() ==> has_key(ns, key_of(#[trigger] s[i])),
    ensures
        !reconcile_changes(
            reconciled_sessions(s, m, ns),
            reconciled_missing(s, m, ns),
            ns,
        ),
        reconciled_sessions(reconciled_sessions(s, m, ns), reconciled_missing(s, m, ns), ns)
            == reconciled_sessions(s, m, ns),
        reconciled_missing(reconciled_sessions(s, m, ns), reconciled_missing(s, m, ns), ns)
            == reconciled_missing(s, m, ns),
{
    let s1 = absorb_all(s, ns);
    let m1 = without_reported(m, ns);
    assert forall|k: Seq<char>| count_key(s1, k) > 0 implies has_key(ns, k) by {
        lemma_count_has_key(s1, k);
        lemma_absorb_all_keys(s, ns, k);
        if has_key(s, k) {
            let i = choose|i: int| 0 <= i < s.len() && key_of(s[i]) == k;
            assert(has_key(ns, key_of(s[i])));
        }
    }
    assert forall|i: int| 0 <= i < s1.len() implies #[trigger] survives(m1, s1, ns)(s1[i]) by {
        lemma_count_has_key(s1, key_of(s1[i]));
    }
    lemma_filter_all(s1, survives(m1, s1, ns));
    let s2 = reconciled_sessions(s, m, ns);
    let m2 = reconciled_missing(s, m, ns);
    assert(s2 == s1);
    assert forall|j: int| 0 <= j < ns.len() implies has_key(s1, key_of(#[trigger] ns[j]))
        && s1[first_with_key(s1, key_of(ns[j]))].is_current_session
        == ns[j].is_current_session by {
        lemma_absorb_all_flags(s, ns, j);
    }
    lemma_absorb_all_settled(s1, ns);
    let m3 = without_reported(m2, ns);
    assert forall|k: Seq<char>| !is_doomed(m3, s1, ns, k) by {
        if count_key(s1, k) > 0 {
            assert(has_key(ns, k));
        }
    }
    assert forall|i: int| 0 <= i < s1.len() implies #[trigger] survives(m3, s1, ns)(s1[i]) by {
        assert(!is_doomed(m3, s1, ns, key_of(s1[i])));
    }
    lemma_filter_all(s1, survives(m3, s1, ns));
    assert forall|k: Seq<char>| !is_absent(s1, ns, k) by {
        if count_key(s1, k) > 0 {
            assert(has_key(ns, k));
        }
    }
    assert(m2 =~= m1);
    assert(m3 =~= m2);
    assert(reconciled_missing(s2, m2, ns) =~= m2);
}

/// Absorbing never shortens the list.
proof fn lemma_absorb_all_len(s: Seq<SessionInfo>, ns: Seq<SessionInfo>)
    ensures
        absorb_all(s, ns).len() >= s.len(),
    decreases ns.len(),
{
    if ns.len() > 0 {
        lemma_absorb_all_len(s, ns.drop_last());
        let l = absorb_all(s, ns.drop_last());
        if has_key(l, key_of(ns.last())) {
            lemma_first_with_key(l, key_of(ns.last()));
        }
    }
}

/// In a snapshot of distinct identities, a record of a new identity is
/// appended where the list ended when it came, and stays there unchanged.
proof fn lemma_new_record_stays(s: Seq<SessionInfo>, ns: Seq<SessionInfo>, idx: int)
    requires
        distinct_keys(ns),
        0 <= idx < ns.len(),
        !has_key(absorb_all(s, ns.take(idx)), key_of(ns[idx])),
    ensures
        absorb_all(s, ns.take(idx)).len() < absorb_all(s, ns).len(),
        absorb_all(s, ns)[absorb_all(s, ns.take(idx)).len() as int] == ns[idx],
    decreases ns.len(),
{
    let init = ns.drop_last();
    let n = ns.last();
    let l = absorb_all(s, init);
    let p = absorb_all(s, ns.take(idx)).len() as int;
    if idx == ns.len() - 1 {
        assert(init =~= ns.take(idx));
        assert(absorb_all(s, ns) == l.push(n));
    } else {
        assert(init.take(idx) =~= ns.take(idx));
        assert(init[idx] == ns[idx]);
        assert(distinct_keys(init)) by {
            assert forall|a: int, b: int|
                0 <= a < init.len() && 0 <= b < init.len() && a != b implies key_of(
                #[trigger] init[a],
            ) != key_of(#[trigger] init[b]) by {
                assert(init[a] == ns[a]);
                assert(init[b] == ns[b]);
            }
        }
        lemma_new_record_stays(s, init, idx);
        assert(ns[ns.len() - 1] == n);
        assert(key_of(n) != key_of(ns[idx]));
        if has_key(l, key_of(n)) {
            lemma_first_with_key(l, key_of(n));
        }
    }
}

/// With a snapshot of distinct identities, a record of an identity the engine
/// does not know yet is kept as the snapshot gave it (name and current flag),
/// among the records appended after the ones the engine had; those keep their
/// places in front.
pub proof fn law_new_session_appended(
    s: Seq<SessionInfo>,
    m: Map<Seq<char>, u8>,
    ns: Seq<SessionInfo>,
    idx: int,
)
    requires
        distinct_keys(ns),
        0 <= idx < ns.len(),
        !has_key(s, key_of(ns[idx])),
    ensures
        ({
            let s1 = absorb_all(s, ns);
            let keep = survives(without_reported(m, ns), s1, ns);
            &&& reconciled_sessions(s, m, ns) == s1.take(s.len() as int).filter(keep) + s1.skip(
                s.len() as int,
            ).filter(keep)
            &&& s1.skip(s.len() as int).filter(keep).contains(ns[idx])
        }),
{
    let k = key_of(ns[idx]);
    let pre = ns.take(idx);
    assert forall|q: int| 0 <= q < pre.len() implies key_of(#[trigger] pre[q]) != k by {
        assert(pre[q] == ns[q]);
    }
    lemma_absorb_all_keys(s, pre, k);
    lemma_new_record_stays(s, ns, idx);
    lemma_absorb_all_len(s, pre);
    let s1 = absorb_all(s, ns);
    let m1 = without_reported(m, ns);
    let keep = survives(m1, s1, ns);
    let p = absorb_all(s, pre).len() as int;
    let front = s1.take(s.len() as int);
    let back = s1.skip(s.len() as int);
    assert(s1 =~= front + back);
    Seq::filter_distributes_over_add(front, back, keep);
    assert(has_key(ns, k));
    assert(keep(ns[idx]));
    assert(back[p - s.len()] == ns[idx]);
    back.lemma_filter_contains(keep, p - s.len());
}

/// A snapshot keeps the miss counts in range.
pub proof fn lemma_reconciled_counts_in_range(
    s: Seq<SessionInfo>,
    m: Map<Seq<char>, u8>,
    ns: Seq<SessionInfo>,
)
    requires
        counts_in_range(m),
    ensures
        counts_in_range(reconciled_missing(s, m, ns)),
{
    let s1 = absorb_all(s, ns);
    let fin = reconciled_missing(s, m, ns);
    assert forall|k: Seq<char>| #[trigger] fin.contains_key(k) implies 1 <= fin[k]
        < MISSING_THRESHOLD by {
        if !is_absent(s1, ns, k) {
            assert(m.contains_key(k));
        }
    }
}

/// A session that reappears has its misses reset: it survives one more
/// absence right after, unless three or more records share its identity.
pub proof fn law_reappearance_then_absence(
    s: Seq<SessionInfo>,
    m: Map<Seq<char>, u8>,
    back: Seq<SessionInfo>,
    gone: Seq<SessionInfo>,
    k: Seq<char>,
)
    requires
        counts_in_range(m),
        has_key(back, k),
        !has_key(gone, k),
        count_key(reconciled_sessions(s, m, back), k) < MISSING_THRESHOLD,
    ensures
        has_key(
            reconciled_sessions(
                reconciled_sessions(s, m, back),
                reconciled_missing(s, m, back),
                gone,
            ),
            k,
        ),
{
    let s2 = reconciled_sessions(s, m, back);
    let m2 = reconciled_missing(s, m, back);
    lemma_reported_stays(s, m, back, k);
    lemma_reconciled_counts_in_range(s, m, back);
    assert(base_count(m2, k) == 0);
    law_absence_debounced(s2, m2, gone, k);
}

} // verus!
