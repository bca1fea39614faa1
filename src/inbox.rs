use vstd::prelude::*;

use crate::reconcile::{find_by_id, index_of_id, lemma_find_found, lemma_find_some};
use crate::text::str_eq;
use crate::timeline::{lemma_newest_first_sorted, newest_first, sort_newest_first};
use crate::types::HuBoxNotification;

verus! {

/// The items of `s` that satisfy `p`, in order.
pub open spec fn only(s: Seq<HuBoxNotification>, p: spec_fn(HuBoxNotification) -> bool) -> Seq<
    HuBoxNotification,
>
    decreases s.len(),
{
    if s.len() == 0 {
        s
    } else if p(s.last()) {
        only(s.drop_last(), p).push(s.last())
    } else {
        only(s.drop_last(), p)
    }
}

/// The ids that a list of strings holds.
pub open spec fn ids_of(v: Seq<String>) -> Seq<Seq<char>> {
    v.map_values(|s: String| s@)
}

pub open spec fn is_not_done() -> spec_fn(HuBoxNotification) -> bool {
    |n: HuBoxNotification| !n.done()
}

pub open spec fn is_done() -> spec_fn(HuBoxNotification) -> bool {
    |n: HuBoxNotification| n.done()
}

pub open spec fn in_batch(ids: Seq<Seq<char>>) -> spec_fn(HuBoxNotification) -> bool {
    |n: HuBoxNotification| ids.contains(n.id@)
}

/// The notifications that may enter the active set: those not marked done.
pub open spec fn eligible(s: Seq<HuBoxNotification>) -> Seq<HuBoxNotification> {
    only(s, is_not_done())
}

/// The previous active ids that still name an eligible notification, in their order.
pub open spec fn carried_over(prev: Seq<Seq<char>>, elig: Seq<HuBoxNotification>) -> Seq<Seq<char>>
    decreases prev.len(),
{
    if prev.len() == 0 {
        prev
    } else if find_by_id(elig, prev.last()) is Some {
        carried_over(prev.drop_last(), elig).push(prev.last())
    } else {
        carried_over(prev.drop_last(), elig)
    }
}

/// Append the ids of `ordered` that `acc` lacks, in order, while `acc` is
/// shorter than `cap`.
pub open spec fn filled(acc: Seq<Seq<char>>, ordered: Seq<HuBoxNotification>, cap: nat) -> Seq<
    Seq<char>,
>
    decreases ordered.len(),
{
    if ordered.len() == 0 || acc.len() >= cap {
        acc
    } else if acc.contains(ordered[0].id@) {
        filled(acc, ordered.drop_first(), cap)
    } else {
        filled(acc.push(ordered[0].id@), ordered.drop_first(), cap)
    }
}

/// The active set recomputed from the notifications, the previous active ids
/// and the capacity: carried-over ids first, then the newest eligible ones.
pub open spec fn curated(notifs: Seq<HuBoxNotification>, prev: Seq<Seq<char>>, cap: nat) -> Seq<
    Seq<char>,
> {
    filled(carried_over(prev, eligible(notifs)), newest_first(eligible(notifs)), cap)
}

pub proof fn lemma_only_len(s: Seq<HuBoxNotification>, p: spec_fn(HuBoxNotification) -> bool)
    ensures
        only(s, p).len() <= s.len(),
    decreases s.len(),
{
    if s.len() > 0 {
        lemma_only_len(s.drop_last(), p);
    }
}

/// Every item that `only` keeps is an item of its input that satisfies `p`.
pub proof fn lemma_only_members(s: Seq<HuBoxNotification>, p: spec_fn(HuBoxNotification) -> bool)
    ensures
        forall|k: int|
            0 <= k < only(s, p).len() ==> p(#[trigger] only(s, p)[k]) && s.contains(only(s, p)[k]),
    decreases s.len(),
{
    if s.len() > 0 {
        lemma_only_members(s.drop_last(), p);
        let r = only(s, p);
        let q = only(s.drop_last(), p);
        assert forall|k: int| 0 <= k < r.len() implies p(#[trigger] r[k]) && s.contains(r[k]) by {
            if k < q.len() {
                assert(r[k] == q[k]);
                let j = choose|j: int| 0 <= j < s.drop_last().len() && s.drop_last()[j] == q[k];
                assert(s[j] == q[k]);
            } else {
                assert(r[k] == s.last());
                assert(s[s.len() - 1] == s.last());
            }
        }
    }
}

/// An item of `s` that satisfies `p` is kept by `only`.
pub proof fn lemma_only_keeps(s: Seq<HuBoxNotification>, p: spec_fn(HuBoxNotification) -> bool, j: int)
    requires
        0 <= j < s.len(),
        p(s[j]),
    ensures
        only(s, p).contains(s[j]),
    decreases s.len(),
{
    if j == s.len() - 1 {
        assert(only(s, p)[only(s, p).len() - 1] == s[j]);
    } else {
        assert(s.drop_last()[j] == s[j]);
        lemma_only_keeps(s.drop_last(), p, j);
        let q = only(s.drop_last(), p);
        let k = choose|k: int| 0 <= k < q.len() && q[k] == s[j];
        if p(s.last()) {
            assert(only(s, p)[k] == s[j]);
        }
    }
}

/// Carrying over ids that all name an eligible notification keeps them all, in order.
pub proof fn lemma_carried_all(prev: Seq<Seq<char>>, elig: Seq<HuBoxNotification>)
    requires
        forall|i: int| 0 <= i < prev.len() ==> find_by_id(elig, #[trigger] prev[i]) is Some,
    ensures
        carried_over(prev, elig) == prev,
    decreases prev.len(),
{
    if prev.len() > 0 {
        assert forall|i: int| 0 <= i < prev.drop_last().len() implies find_by_id(
            elig,
            #[trigger] prev.drop_last()[i],
        ) is Some by {
            assert(prev.drop_last()[i] == prev[i]);
        }
        lemma_carried_all(prev.drop_last(), elig);
        assert(find_by_id(elig, prev[prev.len() - 1]) is Some);
        assert(prev.drop_last().push(prev.last()) =~= prev);
    }
}

/// Carried-over ids all name an eligible notification.
pub proof fn lemma_carried_found(prev: Seq<Seq<char>>, elig: Seq<HuBoxNotification>)
    ensures
        forall|i: int|
            0 <= i < carried_over(prev, elig).len() ==> find_by_id(
                elig,
                #[trigger] carried_over(prev, elig)[i],
            ) is Some,
    decreases prev.len(),
{
    if prev.len() > 0 {
        lemma_carried_found(prev.drop_last(), elig);
        let q = carried_over(prev.drop_last(), elig);
        let r = carried_over(prev, elig);
        assert forall|i: int| 0 <= i < r.len() implies find_by_id(elig, #[trigger] r[i]) is Some by {
            if i < q.len() {
                assert(r[i] == q[i]);
            }
        }
    }
}

/// Filling only appends: what was there stays, in its place.
pub proof fn lemma_filled_extends(acc: Seq<Seq<char>>, ordered: Seq<HuBoxNotification>, cap: nat)
    ensures
        filled(acc, ordered, cap).len() >= acc.len(),
        forall|i: int| 0 <= i < acc.len() ==> #[trigger] filled(acc, ordered, cap)[i] == acc[i],
    decreases ordered.len(),
{
    if ordered.len() > 0 && acc.len() < cap {
        if acc.contains(ordered[0].id@) {
            lemma_filled_extends(acc, ordered.drop_first(), cap);
        } else {
            let a2 = acc.push(ordered[0].id@);
            lemma_filled_extends(a2, ordered.drop_first(), cap);
            assert forall|i: int| 0 <= i < acc.len() implies #[trigger] filled(acc, ordered, cap)[i]
                == acc[i] by {
                assert(a2[i] == acc[i]);
            }
        }
    }
}

/// Every filled id is an id of `acc` or of `ordered`; and the result is full
/// or holds every id of `ordered`.
pub proof fn lemma_filled_members(acc: Seq<Seq<char>>, ordered: Seq<HuBoxNotification>, cap: nat)
    ensures
        forall|i: int|
            0 <= i < filled(acc, ordered, cap).len() ==> acc.contains(
                #[trigger] filled(acc, ordered, cap)[i],
            ) || exists|j: int|
                0 <= j < ordered.len() && ordered[j].id@ == filled(acc, ordered, cap)[i],
        filled(acc, ordered, cap).len() >= cap || forall|j: int|
            0 <= j < ordered.len() ==> filled(acc, ordered, cap).contains(#[trigger] ordered[j].id@),
    decreases ordered.len(),
{
    let f = filled(acc, ordered, cap);
    if ordered.len() > 0 && acc.len() < cap {
        let rest = ordered.drop_first();
        let a2 = if acc.contains(ordered[0].id@) {
            acc
        } else {
            acc.push(ordered[0].id@)
        };
        assert(f == filled(a2, rest, cap));
        lemma_filled_members(a2, rest, cap);
        lemma_filled_extends(a2, rest, cap);
        assert forall|i: int| 0 <= i < f.len() implies acc.contains(#[trigger] f[i]) || exists|
            j: int,
        | 0 <= j < ordered.len() && ordered[j].id@ == f[i] by {
            if a2.contains(f[i]) {
                let k = choose|k: int| 0 <= k < a2.len() && a2[k] == f[i];
                if k == acc.len() {
                    assert(ordered[0].id@ == f[i]);
                } else {
                    assert(acc[k] == f[i]);
                }
            } else {
                let j = choose|j: int| 0 <= j < rest.len() && rest[j].id@ == f[i];
                assert(ordered[j + 1] == rest[j]);
            }
        }
        if f.len() < cap {
            assert forall|j: int| 0 <= j < ordered.len() implies f.contains(
                #[trigger] ordered[j].id@,
            ) by {
                if j == 0 {
                    if !acc.contains(ordered[0].id@) {
                        assert(a2[acc.len() as int] == ordered[0].id@);
                    }
                    let k = choose|k: int| 0 <= k < a2.len() && a2[k] == ordered[0].id@;
                    assert(f[k] == a2[k]);
                    assert(f[k] == ordered[j].id@);
                } else {
                    assert(rest[j - 1] == ordered[j]);
                }
            }
        }
    }
}

/// Filling with ids all already present changes nothing.
pub proof fn lemma_filled_nothing_new(acc: Seq<Seq<char>>, ordered: Seq<HuBoxNotification>, cap: nat)
    requires
        forall|j: int| 0 <= j < ordered.len() ==> acc.contains(#[trigger] ordered[j].id@),
    ensures
        filled(acc, ordered, cap) == acc,
    decreases ordered.len(),
{
    if ordered.len() > 0 && acc.len() < cap {
        assert(acc.contains(ordered[0].id@));
        assert forall|j: int| 0 <= j < ordered.drop_first().len() implies acc.contains(
            #[trigger] ordered.drop_first()[j].id@,
        ) by {
            assert(ordered.drop_first()[j] == ordered[j + 1]);
        }
        lemma_filled_nothing_new(acc, ordered.drop_first(), cap);
    }
}

/// Curating twice over the same notifications gives what curating once gave.
pub proof fn lemma_curated_idempotent(notifs: Seq<HuBoxNotification>, prev: Seq<Seq<char>>, cap: nat)
    ensures
        curated(notifs, curated(notifs, prev, cap), cap) == curated(notifs, prev, cap),
{
    let elig = eligible(notifs);
    let once = curated(notifs, prev, cap);
    lemma_curated_found(notifs, prev, cap);
    lemma_carried_all(once, elig);
    lemma_filled_members(carried_over(prev, elig), newest_first(elig), cap);
    if once.len() < cap {
        lemma_filled_nothing_new(once, newest_first(elig), cap);
    }
}

/// The active-set invariant: each active id names a notification not marked done.
pub open spec fn active_ids_eligible(notifs: Seq<HuBoxNotification>, active: Seq<Seq<char>>) -> bool {
    forall|i: int|
        0 <= i < active.len() ==> exists|j: int|
            0 <= j < notifs.len() && notifs[j].id@ == #[trigger] active[i] && !notifs[j].done()
}

/// Recomputing the active set at any capacity, in particular a larger one
/// after an expansion, keeps every active id in its place, as long as each
/// names a notification not marked done.
pub proof fn lemma_curation_keeps_active(notifs: Seq<HuBoxNotification>, prev: Seq<Seq<char>>, cap: nat)
    requires
        active_ids_eligible(notifs, prev),
    ensures
        curated(notifs, prev, cap).len() >= prev.len(),
        forall|i: int| 0 <= i < prev.len() ==> #[trigger] curated(notifs, prev, cap)[i] == prev[i],
{
    let elig = eligible(notifs);
    assert forall|i: int| 0 <= i < prev.len() implies find_by_id(elig, #[trigger] prev[i]) is Some by {
        let j = choose|j: int|
            0 <= j < notifs.len() && notifs[j].id@ == prev[i] && !notifs[j].done();
        lemma_only_keeps(notifs, is_not_done(), j);
        let m = choose|m: int| 0 <= m < elig.len() && elig[m] == notifs[j];
        lemma_find_some(elig, prev[i], m);
    }
    lemma_carried_all(prev, elig);
    lemma_filled_extends(prev, newest_first(elig), cap);
}

/// The active-set invariants: each active id names a notification not marked
/// done, no id is active twice, and the set is within capacity.
pub open spec fn active_set_wf(notifs: Seq<HuBoxNotification>, active: Seq<Seq<char>>, cap: nat) -> bool {
    &&& active_ids_eligible(notifs, active)
    &&& active.no_duplicates()
    &&& active.len() <= cap
}

proof fn lemma_carried_subseq(prev: Seq<Seq<char>>, elig: Seq<HuBoxNotification>)
    ensures
        carried_over(prev, elig).len() <= prev.len(),
        forall|i: int|
            0 <= i < carried_over(prev, elig).len() ==> prev.contains(
                #[trigger] carried_over(prev, elig)[i],
            ),
        prev.no_duplicates() ==> carried_over(prev, elig).no_duplicates(),
    decreases prev.len(),
{
    if prev.len() > 0 {
        let shorter = prev.drop_last();
        lemma_carried_subseq(shorter, elig);
        let q = carried_over(shorter, elig);
        let r = carried_over(prev, elig);
        assert forall|i: int| 0 <= i < r.len() implies prev.contains(#[trigger] r[i]) by {
            if i < q.len() {
                assert(r[i] == q[i]);
                let k = choose|k: int| 0 <= k < shorter.len() && shorter[k] == q[i];
                assert(prev[k] == shorter[k]);
            } else {
                assert(prev[prev.len() - 1] == r[i]);
            }
        }
        if prev.no_duplicates() {
            assert(shorter.no_duplicates()) by {
                assert forall|i: int, j: int|
                    0 <= i < shorter.len() && 0 <= j < shorter.len() && i != j implies shorter[i] != shorter[j] by {
                    assert(shorter[i] == prev[i] && shorter[j] == prev[j]);
                }
            }
            if find_by_id(elig, prev.last()) is Some {
                assert forall|i: int, j: int|
                    0 <= i < r.len() && 0 <= j < r.len() && i != j implies r[i] != r[j] by {
                    if i < q.len() && j < q.len() {
                        assert(r[i] == q[i] && r[j] == q[j]);
                    } else if i < q.len() {
                        let k = choose|k: int| 0 <= k < shorter.len() && shorter[k] == q[i];
                        assert(prev[k] == q[i]);
                        assert(r[i] == q[i]);
                        assert(r[j] == prev[prev.len() - 1]);
                    } else {
                        let k = choose|k: int| 0 <= k < shorter.len() && shorter[k] == q[j];
                        assert(prev[k] == q[j]);
                        assert(r[j] == q[j]);
                        assert(r[i] == prev[prev.len() - 1]);
                    }
                }
            }
        }
    }
}

proof fn lemma_filled_bounded(acc: Seq<Seq<char>>, ordered: Seq<HuBoxNotification>, cap: nat)
    requires
        acc.no_duplicates(),
        acc.len() <= cap,
    ensures
        filled(acc, ordered, cap).no_duplicates(),
        filled(acc, ordered, cap).len() <= cap,
    decreases ordered.len(),
{
    if ordered.len() > 0 && acc.len() < cap {
        if acc.contains(ordered[0].id@) {
            lemma_filled_bounded(acc, ordered.drop_first(), cap);
        } else {
            let a2 = acc.push(ordered[0].id@);
            assert forall|i: int, j: int|
                0 <= i < a2.len() && 0 <= j < a2.len() && i != j implies a2[i] != a2[j] by {
                if i < acc.len() && j < acc.len() {
                } else if i < acc.len() {
                    assert(acc.contains(a2[i]));
                } else {
                    assert(acc.contains(a2[j]));
                }
            }
            lemma_filled_bounded(a2, ordered.drop_first(), cap);
        }
    }
}

/// Every id of the recomputed active set names an eligible notification.
pub proof fn lemma_curated_found(notifs: Seq<HuBoxNotification>, prev: Seq<Seq<char>>, cap: nat)
    ensures
        forall|i: int|
            0 <= i < curated(notifs, prev, cap).len() ==> find_by_id(
                eligible(notifs),
                #[trigger] curated(notifs, prev, cap)[i],
            ) is Some,
{
    let elig = eligible(notifs);
    let ordered = newest_first(elig);
    let c = carried_over(prev, elig);
    let once = curated(notifs, prev, cap);
    broadcast use vstd::seq_lib::group_seq_properties;

    lemma_carried_found(prev, elig);
    lemma_filled_members(c, ordered, cap);
    lemma_newest_first_sorted(elig);
    assert forall|i: int| 0 <= i < once.len() implies find_by_id(elig, #[trigger] once[i]) is Some by {
        if c.contains(once[i]) {
            let k = choose|k: int| 0 <= k < c.len() && c[k] == once[i];
        } else {
            let j = choose|j: int| 0 <= j < ordered.len() && ordered[j].id@ == once[i];
            assert(ordered.contains(ordered[j]));
            vstd::seq_lib::to_multiset_contains(ordered, ordered[j]);
            vstd::seq_lib::to_multiset_contains(elig, ordered[j]);
            let m = choose|m: int| 0 <= m < elig.len() && elig[m] == ordered[j];
            lemma_find_some(elig, once[i], m);
        }
    }
}

/// Recomputing the active set from one that had no repeated id and fit the
/// capacity gives one that keeps all the active-set invariants.
pub proof fn lemma_curated_wf(notifs: Seq<HuBoxNotification>, prev: Seq<Seq<char>>, cap: nat)
    requires
        prev.no_duplicates(),
        prev.len() <= cap,
    ensures
        active_set_wf(notifs, curated(notifs, prev, cap), cap),
{
    let elig = eligible(notifs);
    let r = curated(notifs, prev, cap);
    lemma_carried_subseq(prev, elig);
    lemma_filled_bounded(carried_over(prev, elig), newest_first(elig), cap);
    lemma_curated_found(notifs, prev, cap);
    lemma_only_members(notifs, is_not_done());
    assert forall|i: int| 0 <= i < r.len() implies exists|j: int|
        0 <= j < notifs.len() && notifs[j].id@ == #[trigger] r[i] && !notifs[j].done() by {
        lemma_find_found(elig, r[i]);
        let n = find_by_id(elig, r[i])->Some_0;
        let k = choose|k: int| 0 <= k < elig.len() && elig[k] == n;
        assert(is_not_done()(elig[k]));
        let j = choose|j: int| 0 <= j < notifs.len() && notifs[j] == elig[k];
        assert(notifs[j].id@ == r[i]);
    }
}

/// Whether some string of `ids` equals `id`.
pub fn contains_id(ids: &Vec<String>, id: &str) -> (r: bool)
    ensures
        r == ids_of(ids@).contains(id@),
{
    let mut i: usize = 0;
    while i < ids.len()
        invariant
            i <= ids@.len(),
            forall|j: int| 0 <= j < i ==> (#[trigger] ids@[j])@ != id@,
        decreases ids@.len() - i,
    {
        if str_eq(ids[i].as_str(), id) {
            assert(ids_of(ids@)[i as int] == id@);
            return true;
        }
        i = i + 1;
    }
    proof {
        if ids_of(ids@).contains(id@) {
            let j = choose|j: int| 0 <= j < ids_of(ids@).len() && ids_of(ids@)[j] == id@;
            assert(ids@[j]@ == id@);
        }
    }
    false
}

/// The notifications not marked done, in order.
pub fn select_not_done(s: &Vec<HuBoxNotification>) -> (r: Vec<HuBoxNotification>)
    ensures
        r@ == only(s@, is_not_done()),
{
    let mut r: Vec<HuBoxNotification> = Vec::new();
    let mut i: usize = 0;
    while i < s.len()
        invariant
            i <= s@.len(),
            r@ == only(s@.take(i as int), is_not_done()),
        decreases s@.len() - i,
    {
        assert(s@.take(i + 1).drop_last() =~= s@.take(i as int));
        if s[i].is_done != Some(true) {
            r.push(s[i].duplicate());
        }
        i = i + 1;
    }
    assert(s@.take(i as int) =~= s@);
    r
}

/// The notifications marked done, in order.
pub fn select_done(s: &Vec<HuBoxNotification>) -> (r: Vec<HuBoxNotification>)
    ensures
        r@ == only(s@, is_done()),
{
    let mut r: Vec<HuBoxNotification> = Vec::new();
    let mut i: usize = 0;
    while i < s.len()
        invariant
            i <= s@.len(),
            r@ == only(s@.take(i as int), is_done()),
        decreases s@.len() - i,
    {
        assert(s@.take(i + 1).drop_last() =~= s@.take(i as int));
        if s[i].is_done == Some(true) {
            r.push(s[i].duplicate());
        }
        i = i + 1;
    }
    assert(s@.take(i as int) =~= s@);
    r
}

/// The notifications whose id is among `ids`, in order.
pub fn select_in_batch(s: &Vec<HuBoxNotification>, ids: &Vec<String>) -> (r: Vec<
    HuBoxNotification,
>)
    ensures
        r@ == only(s@, in_batch(ids_of(ids@))),
{
    let mut r: Vec<HuBoxNotification> = Vec::new();
    let mut i: usize = 0;
    while i < s.len()
        invariant
            i <= s@.len(),
            r@ == only(s@.take(i as int), in_batch(ids_of(ids@))),
        decreases s@.len() - i,
    {
        assert(s@.take(i + 1).drop_last() =~= s@.take(i as int));
        if contains_id(ids, s[i].id.as_str()) {
            r.push(s[i].duplicate());
        }
        i = i + 1;
    }
    assert(s@.take(i as int) =~= s@);
    r
}

/// Recompute the active set: keep the previous active ids that are still
/// eligible, in their order, then add the newest eligible notifications not
/// yet present until `max_active` is reached or none is left.
pub fn curate(notifications: &Vec<HuBoxNotification>, previous: &Vec<String>, max_active: usize) -> (r:
    Vec<String>)
    ensures
        ids_of(r@) == curated(notifications@, ids_of(previous@), max_active as nat),
{
    let available = select_not_done(notifications);
    let ordered = sort_newest_first(&available);
    let mut next: Vec<String> = Vec::new();
    let mut i: usize = 0;
    while i < previous.len()
        invariant
            i <= previous@.len(),
            available@ == eligible(notifications@),
            ids_of(next@) == carried_over(ids_of(previous@).take(i as int), available@),
        decreases previous@.len() - i,
    {
        assert(ids_of(previous@).take(i + 1).drop_last() =~= ids_of(previous@).take(i as int));
        assert(ids_of(previous@).take(i + 1).last() == previous@[i as int]@);
        let ghost before = ids_of(next@);
        if index_of_id(&available, previous[i].as_str()).is_some() {
            next.push(previous[i].clone());
            assert(ids_of(next@) =~= before.push(previous@[i as int]@));
        }
        i = i + 1;
    }
    assert(ids_of(previous@).take(i as int) =~= ids_of(previous@));
    assert(ordered@.skip(0) =~= ordered@);
    let mut k: usize = 0;
    while k < ordered.len() && next.len() < max_active
        invariant
            k <= ordered@.len(),
            filled(ids_of(next@), ordered@.skip(k as int), max_active as nat) == curated(
                notifications@,
                ids_of(previous@),
                max_active as nat,
            ),
            ids_of(next@).len() == next@.len(),
        decreases ordered@.len() - k,
    {
        let ghost before = ids_of(next@);
        assert(ordered@.skip(k as int).drop_first() =~= ordered@.skip(k + 1));
        assert(ordered@.skip(k as int)[0] == ordered@[k as int]);
        if !contains_id(&next, ordered[k].id.as_str()) {
            next.push(ordered[k].id.clone());
            assert(ids_of(next@) =~= before.push(ordered@[k as int].id@));
        }
        k = k + 1;
    }
    assert(filled(ids_of(next@), ordered@.skip(k as int), max_active as nat) == ids_of(next@));
    next
}

} // verus!
