use vstd::prelude::*;

use crate::text::str_eq;
use crate::types::{CustomStates, CustomState, HuBoxNotification};

verus! {

/// The first notification in `s` whose id is `id`.
pub open spec fn find_by_id(s: Seq<HuBoxNotification>, id: Seq<char>) -> Option<HuBoxNotification>
    decreases s.len(),
{
    if s.len() == 0 {
        None
    } else if s[0].id@ == id {
        Some(s[0])
    } else {
        find_by_id(s.drop_first(), id)
    }
}

/// The index of the first notification in `s` whose id is `id`.
pub open spec fn first_index(s: Seq<HuBoxNotification>, id: Seq<char>) -> Option<int>
    decreases s.len(),
{
    if s.len() == 0 {
        None
    } else if s[0].id@ == id {
        Some(0)
    } else {
        match first_index(s.drop_first(), id) {
            Some(k) => Some(k + 1),
            None => None,
        }
    }
}

/// A freshly fetched record with the overlay it inherits: that of the prior
/// record with the same id if there is one, else that of the remembered
/// custom state for the id, else its own.
pub open spec fn reconciled(
    prior: Seq<HuBoxNotification>,
    custom: Map<Seq<char>, CustomState>,
    remote: HuBoxNotification,
) -> HuBoxNotification {
    match find_by_id(prior, remote.id@) {
        Some(p) => remote.with_overlay(p.is_read, p.is_done, p.priority, p.last_viewed_at),
        None => if custom.contains_key(remote.id@) {
            let c = custom[remote.id@];
            remote.with_overlay(
                Some(c.is_read),
                Some(c.is_done),
                Some(c.priority),
                Some(c.last_viewed_at),
            )
        } else {
            remote
        },
    }
}

/// One record per distinct id of `s`: the last record with that id, in the
/// order of those last records.
pub open spec fn last_per_id(s: Seq<HuBoxNotification>) -> Seq<HuBoxNotification>
    decreases s.len(),
{
    if s.len() == 0 {
        s
    } else if find_by_id(s.drop_first(), s[0].id@) is Some {
        last_per_id(s.drop_first())
    } else {
        seq![s[0]] + last_per_id(s.drop_first())
    }
}

/// The merged list: for each distinct id of the remote list, its last remote
/// record, reconciled.
pub open spec fn merged(
    prior: Seq<HuBoxNotification>,
    custom: Map<Seq<char>, CustomState>,
    remote: Seq<HuBoxNotification>,
) -> Seq<HuBoxNotification> {
    last_per_id(remote).map_values(|r: HuBoxNotification| reconciled(prior, custom, r))
}

/// Some record of `s` has id `id`.
pub open spec fn has_id(s: Seq<HuBoxNotification>, id: Seq<char>) -> bool {
    exists|k: int| 0 <= k < s.len() && (#[trigger] s[k]).id@ == id
}

pub proof fn lemma_find_at(s: Seq<HuBoxNotification>, id: Seq<char>, j: int)
    requires
        0 <= j < s.len(),
        s[j].id@ == id,
        forall|i: int| 0 <= i < j ==> (#[trigger] s[i]).id@ != id,
    ensures
        find_by_id(s, id) == Some(s[j]),
        first_index(s, id) == Some(j),
    decreases j,
{
    if j > 0 {
        let t = s.drop_first();
        assert forall|i: int| 0 <= i < j - 1 implies (#[trigger] t[i]).id@ != id by {
            assert(t[i] == s[i + 1]);
        }
        assert(s[0].id@ != id);
        lemma_find_at(t, id, j - 1);
    }
}

pub proof fn lemma_find_none(s: Seq<HuBoxNotification>, id: Seq<char>)
    requires
        forall|i: int| 0 <= i < s.len() ==> (#[trigger] s[i]).id@ != id,
    ensures
        find_by_id(s, id) is None,
        first_index(s, id) is None,
    decreases s.len(),
{
    if s.len() > 0 {
        let t = s.drop_first();
        assert forall|i: int| 0 <= i < t.len() implies (#[trigger] t[i]).id@ != id by {
            assert(t[i] == s[i + 1]);
        }
        assert(s[0].id@ != id);
        lemma_find_none(t, id);
    }
}

pub proof fn lemma_find_some(s: Seq<HuBoxNotification>, id: Seq<char>, j: int)
    requires
        0 <= j < s.len(),
        s[j].id@ == id,
    ensures
        find_by_id(s, id) is Some,
    decreases s.len(),
{
    if s[0].id@ != id {
        assert(s.drop_first()[j - 1] == s[j]);
        lemma_find_some(s.drop_first(), id, j - 1);
    }
}

pub proof fn lemma_find_found(s: Seq<HuBoxNotification>, id: Seq<char>)
    requires
        find_by_id(s, id) is Some,
    ensures
        s.contains(find_by_id(s, id)->Some_0),
        find_by_id(s, id)->Some_0.id@ == id,
    decreases s.len(),
{
    if s[0].id@ != id {
        lemma_find_found(s.drop_first(), id);
        let j = choose|j: int|
            0 <= j < s.drop_first().len() && s.drop_first()[j] == find_by_id(s, id)->Some_0;
        assert(s[j + 1] == s.drop_first()[j]);
    } else {
        assert(s[0] == s[0]);
    }
}

pub proof fn lemma_find_iff(s: Seq<HuBoxNotification>, id: Seq<char>)
    ensures
        (find_by_id(s, id) is Some) == has_id(s, id),
{
    if has_id(s, id) {
        let k = choose|k: int| 0 <= k < s.len() && (#[trigger] s[k]).id@ == id;
        lemma_find_some(s, id, k);
    } else {
        lemma_find_none(s, id);
    }
}

/// `last_per_id` keeps records of its input, one per id, and every id of
/// its input.
pub proof fn lemma_last_per_id(s: Seq<HuBoxNotification>)
    ensures
        unique_ids(last_per_id(s)),
        forall|m: int| 0 <= m < last_per_id(s).len() ==> s.contains(#[trigger] last_per_id(s)[m]),
        forall|k: int| 0 <= k < s.len() ==> has_id(last_per_id(s), #[trigger] s[k].id@),
        unique_ids(s) ==> last_per_id(s) == s,
    decreases s.len(),
{
    if s.len() > 0 {
        let rest = s.drop_first();
        let d = last_per_id(rest);
        let r = last_per_id(s);
        lemma_last_per_id(rest);
        lemma_find_iff(rest, s[0].id@);
        assert forall|m: int| 0 <= m < r.len() implies s.contains(#[trigger] r[m]) by {
            let q = if find_by_id(rest, s[0].id@) is Some { m } else { m - 1 };
            if q >= 0 {
                assert(r[m] == d[q]);
                let k = choose|k: int| 0 <= k < rest.len() && rest[k] == d[q];
                assert(s[k + 1] == rest[k]);
            } else {
                assert(r[m] == s[0]);
            }
        }
        assert forall|k: int| 0 <= k < s.len() implies has_id(r, #[trigger] s[k].id@) by {
            let id = s[k].id@;
            if k > 0 {
                assert(rest[k - 1] == s[k]);
                assert(has_id(d, rest[k - 1].id@));
            } else if find_by_id(rest, id) is Some {
                let j = choose|j: int| 0 <= j < rest.len() && (#[trigger] rest[j]).id@ == id;
                assert(has_id(d, rest[j].id@));
            }
            if find_by_id(rest, s[0].id@) is Some {
                assert(has_id(d, id));
                assert(r == d);
            } else {
                if k == 0 {
                    assert(r[0].id@ == id);
                } else {
                    let m = choose|m: int| 0 <= m < d.len() && (#[trigger] d[m]).id@ == id;
                    assert(r[m + 1] == d[m]);
                }
            }
        }
        if find_by_id(rest, s[0].id@) is None {
            assert forall|i: int, j: int|
                0 <= i < r.len() && 0 <= j < r.len() && i != j implies (#[trigger] r[i]).id@ != (
                #[trigger] r[j]).id@ by {
                if i > 0 && j > 0 {
                    assert(r[i] == d[i - 1] && r[j] == d[j - 1]);
                } else {
                    let m = if i == 0 { j } else { i };
                    assert(r[m] == d[m - 1]);
                    let k = choose|k: int| 0 <= k < rest.len() && rest[k] == d[m - 1];
                    assert(rest[k].id@ != s[0].id@);
                }
            }
        }
        if unique_ids(s) {
            assert forall|i: int, j: int|
                0 <= i < rest.len() && 0 <= j < rest.len() && i != j implies (#[trigger] rest[i]).id@
                != (#[trigger] rest[j]).id@ by {
                assert(rest[i] == s[i + 1] && rest[j] == s[j + 1]);
            }
            assert(!has_id(rest, s[0].id@)) by {
                if has_id(rest, s[0].id@) {
                    let k = choose|k: int| 0 <= k < rest.len() && (#[trigger] rest[k]).id@ == s[0].id@;
                    assert(s[k + 1] == rest[k]);
                }
            }
            assert(r =~= s);
        }
    }
}

/// No two records share an id.
pub open spec fn unique_ids(s: Seq<HuBoxNotification>) -> bool {
    forall|i: int, j: int|
        0 <= i < s.len() && 0 <= j < s.len() && i != j ==> (#[trigger] s[i]).id@ != (
        #[trigger] s[j]).id@
}

/// The merged list holds each id of the fetched list exactly once, and no
/// other id.
pub proof fn lemma_merge_ids(
    prior: Seq<HuBoxNotification>,
    custom: Map<Seq<char>, CustomState>,
    remote: Seq<HuBoxNotification>,
)
    ensures
        unique_ids(merged(prior, custom, remote)),
        forall|k: int|
            0 <= k < remote.len() ==> has_id(merged(prior, custom, remote), #[trigger] remote[k].id@),
        forall|m: int|
            0 <= m < merged(prior, custom, remote).len() ==> has_id(
                remote,
                #[trigger] merged(prior, custom, remote)[m].id@,
            ),
{
    let d = last_per_id(remote);
    let r = merged(prior, custom, remote);
    lemma_last_per_id(remote);
    assert forall|i: int| 0 <= i < r.len() implies (#[trigger] r[i]).id@ == d[i].id@ by {}
    assert forall|k: int| 0 <= k < remote.len() implies has_id(r, #[trigger] remote[k].id@) by {
        let m = choose|m: int| 0 <= m < d.len() && (#[trigger] d[m]).id@ == remote[k].id@;
        assert(r[m].id@ == d[m].id@);
    }
    assert forall|m: int| 0 <= m < r.len() implies has_id(remote, #[trigger] r[m].id@) by {
        assert(r[m].id@ == d[m].id@);
        let k = choose|k: int| 0 <= k < remote.len() && remote[k] == d[m];
    }
    assert forall|i: int, j: int|
        0 <= i < r.len() && 0 <= j < r.len() && i != j implies (#[trigger] r[i]).id@ != (
        #[trigger] r[j]).id@ by {
        assert(r[i].id@ == d[i].id@ && r[j].id@ == d[j].id@);
    }
}

/// A merged record comes from a fetched record, keeps all its server-origin
/// fields and, when the prior list holds its id, takes every overlay field of
/// the prior record with that id.
pub proof fn lemma_merge_keeps_prior_overlay(
    prior: Seq<HuBoxNotification>,
    custom: Map<Seq<char>, CustomState>,
    remote: Seq<HuBoxNotification>,
    m: int,
)
    requires
        0 <= m < merged(prior, custom, remote).len(),
    ensures
        ({
            let r = last_per_id(remote)[m];
            let n = merged(prior, custom, remote)[m];
            &&& remote.contains(r)
            &&& find_by_id(prior, r.id@) matches Some(p) ==> {
                &&& n == r.with_overlay(p.is_read, p.is_done, p.priority, p.last_viewed_at)
                &&& n.is_read == p.is_read
                &&& n.is_done == p.is_done
                &&& n.priority == p.priority
                &&& n.last_viewed_at == p.last_viewed_at
                &&& n.updated_at == r.updated_at
                &&& n.unread == r.unread
            }
        }),
{
    lemma_last_per_id(remote);
}

/// When no two prior records share an id, the prior record with a merged
/// record's id gives that record's overlay; a custom state for the id is not
/// used.
pub proof fn lemma_merge_prefers_prior_record(
    prior: Seq<HuBoxNotification>,
    custom: Map<Seq<char>, CustomState>,
    remote: Seq<HuBoxNotification>,
    m: int,
    j: int,
)
    requires
        unique_ids(prior),
        0 <= m < merged(prior, custom, remote).len(),
        0 <= j < prior.len(),
        prior[j].id@ == merged(prior, custom, remote)[m].id@,
    ensures
        ({
            let n = merged(prior, custom, remote)[m];
            &&& n.is_read == prior[j].is_read
            &&& n.is_done == prior[j].is_done
            &&& n.priority == prior[j].priority
            &&& n.last_viewed_at == prior[j].last_viewed_at
        }),
{
    let id = prior[j].id@;
    assert forall|i: int| 0 <= i < j implies (#[trigger] prior[i]).id@ != id by {}
    lemma_find_at(prior, id, j);
}

/// A merged record whose id the prior list lacks but the custom states hold
/// takes its overlay from the custom state, and keeps the server-origin
/// fields of the fetched record it comes from.
pub proof fn lemma_merge_seeds_from_custom_state(
    prior: Seq<HuBoxNotification>,
    custom: Map<Seq<char>, CustomState>,
    remote: Seq<HuBoxNotification>,
    m: int,
)
    requires
        0 <= m < merged(prior, custom, remote).len(),
        find_by_id(prior, last_per_id(remote)[m].id@) is None,
        custom.contains_key(last_per_id(remote)[m].id@),
    ensures
        ({
            let r = last_per_id(remote)[m];
            let c = custom[r.id@];
            let n = merged(prior, custom, remote)[m];
            &&& remote.contains(r)
            &&& n == r.with_overlay(
                Some(c.is_read),
                Some(c.is_done),
                Some(c.priority),
                Some(c.last_viewed_at),
            )
            &&& n.is_read == Some(c.is_read)
            &&& n.is_done == Some(c.is_done)
            &&& n.priority == Some(c.priority)
            &&& n.last_viewed_at == Some(c.last_viewed_at)
        }),
{
    lemma_last_per_id(remote);
}

/// Merging the same fetched list a second time changes nothing, when the
/// list names each id once.
pub proof fn lemma_merge_idempotent(
    prior: Seq<HuBoxNotification>,
    custom: Map<Seq<char>, CustomState>,
    remote: Seq<HuBoxNotification>,
)
    requires
        unique_ids(remote),
    ensures
        merged(merged(prior, custom, remote), custom, remote) == merged(prior, custom, remote),
{
    lemma_last_per_id(remote);
    let m1 = merged(prior, custom, remote);
    assert forall|i: int| 0 <= i < remote.len() implies reconciled(m1, custom, remote[i]) == m1[i] by {
        assert forall|k: int| 0 <= k < i implies (#[trigger] m1[k]).id@ != remote[i].id@ by {
            assert(m1[k].id == remote[k].id);
        }
        lemma_find_at(m1, remote[i].id@, i);
    }
    assert(merged(m1, custom, remote) =~= m1);
}

/// Index of the first notification in `s` whose id is `id`.
pub fn index_of_id(s: &Vec<HuBoxNotification>, id: &str) -> (r: Option<usize>)
    ensures
        match r {
            Some(j) => j < s@.len() && s@[j as int].id@ == id@ && find_by_id(s@, id@) == Some(
                s@[j as int],
            ) && first_index(s@, id@) == Some(j as int),
            None => find_by_id(s@, id@) is None && first_index(s@, id@) is None,
        },
{
    let mut i: usize = 0;
    while i < s.len()
        invariant
            i <= s@.len(),
            forall|j: int| 0 <= j < i ==> (#[trigger] s@[j]).id@ != id@,
        decreases s@.len() - i,
    {
        if str_eq(s[i].id.as_str(), id) {
            proof {
                lemma_find_at(s@, id@, i as int);
            }
            return Some(i);
        }
        i = i + 1;
    }
    proof {
        lemma_find_none(s@, id@);
    }
    None
}

/// Reconcile one fetched record against the prior list and the custom states.
fn reconcile_one(
    prior: &Vec<HuBoxNotification>,
    custom: &CustomStates,
    remote: HuBoxNotification,
) -> (r: HuBoxNotification)
    ensures
        r == reconciled(prior@, custom@, remote),
{
    let mut n = remote;
    match index_of_id(prior, n.id.as_str()) {
        Some(j) => {
            let p = &prior[j];
            n.is_read = p.is_read;
            n.is_done = p.is_done;
            n.priority = p.priority;
            n.last_viewed_at = p.last_viewed_at;
        },
        None => match custom.get(n.id.as_str()) {
            Some(c) => {
                n.is_read = Some(c.is_read);
                n.is_done = Some(c.is_done);
                n.priority = Some(c.priority);
                n.last_viewed_at = Some(c.last_viewed_at);
            },
            None => {},
        },
    }
    n
}

/// Merge a freshly fetched list into the prior one: the result holds exactly
/// the fetched records, each carrying the overlay fields it inherits.
pub fn merge_lists(
    prior: &Vec<HuBoxNotification>,
    custom: &CustomStates,
    remote: &Vec<HuBoxNotification>,
) -> (r: Vec<HuBoxNotification>)
    ensures
        r@ == merged(prior@, custom@, remote@),
{
    let mut out: Vec<HuBoxNotification> = Vec::new();
    let ghost kept: Seq<HuBoxNotification> = Seq::empty();
    let mut i: usize = 0;
    assert(remote@.skip(0) =~= remote@);
    while i < remote.len()
        invariant
            i <= remote@.len(),
            kept + last_per_id(remote@.skip(i as int)) == last_per_id(remote@),
            out@ == kept.map_values(|n: HuBoxNotification| reconciled(prior@, custom@, n)),
        decreases remote@.len() - i,
    {
        let ghost rest = remote@.skip(i as int);
        assert(rest.drop_first() =~= remote@.skip(i + 1));
        assert(rest[0] == remote@[i as int]);
        if !id_appears_after(remote, i + 1, remote[i].id.as_str()) {
            let m = reconcile_one(prior, custom, remote[i].duplicate());
            out.push(m);
            proof {
                let k2 = kept.push(remote@[i as int]);
                assert(k2 + last_per_id(remote@.skip(i + 1)) =~= kept + last_per_id(rest));
                assert(out@ =~= k2.map_values(|n: HuBoxNotification| reconciled(prior@, custom@, n)));
                kept = k2;
            }
        }
        i = i + 1;
    }
    assert(remote@.skip(i as int) =~= Seq::<HuBoxNotification>::empty());
    assert(kept =~= last_per_id(remote@));
    out
}

/// Whether some record of `s` from index `from` on has id `id`.
fn id_appears_after(s: &Vec<HuBoxNotification>, from: usize, id: &str) -> (r: bool)
    requires
        from <= s@.len(),
    ensures
        r == (find_by_id(s@.skip(from as int), id@) is Some),
{
    let ghost t = s@.skip(from as int);
    let mut i: usize = from;
    while i < s.len()
        invariant
            from <= i <= s@.len(),
            t == s@.skip(from as int),
            forall|k: int| 0 <= k < i - from ==> (#[trigger] t[k]).id@ != id@,
        decreases s@.len() - i,
    {
        if str_eq(s[i].id.as_str(), id) {
            proof {
                assert(t[i - from] == s@[i as int]);
                lemma_find_some(t, id@, i - from);
            }
            return true;
        }
        assert(t[i - from] == s@[i as int]);
        i = i + 1;
    }
    proof {
        lemma_find_none(t, id@);
    }
    false
}

} // verus!
