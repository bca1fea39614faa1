use vstd::prelude::*;

use crate::text::{lex_lt, lemma_lex_lt_asymmetric, str_lt};
use crate::types::HuBoxNotification;

verus! {

/// `a` was updated strictly before `b`.
pub open spec fn older(a: HuBoxNotification, b: HuBoxNotification) -> bool {
    lex_lt(a.updated_at@, b.updated_at@)
}

/// Insert `x` into a newest-first sequence: before the first item older than
/// `x`, after every item at least as new (so equal timestamps keep arrival order).
pub open spec fn insert_by_time(s: Seq<HuBoxNotification>, x: HuBoxNotification) -> Seq<
    HuBoxNotification,
>
    decreases s.len(),
{
    if s.len() == 0 {
        seq![x]
    } else if older(s[0], x) {
        seq![x] + s
    } else {
        seq![s[0]] + insert_by_time(s.drop_first(), x)
    }
}

/// The stable sort of `s` by `updated_at`, newest first.
pub open spec fn newest_first(s: Seq<HuBoxNotification>) -> Seq<HuBoxNotification>
    decreases s.len(),
{
    if s.len() == 0 {
        s
    } else {
        insert_by_time(newest_first(s.drop_last()), s.last())
    }
}

/// No item is older than the one after it.
pub open spec fn is_newest_first(s: Seq<HuBoxNotification>) -> bool {
    forall|i: int| 0 <= i < s.len() - 1 ==> !older(#[trigger] s[i], s[i + 1])
}

proof fn lemma_insert_by_time_sorted(s: Seq<HuBoxNotification>, x: HuBoxNotification)
    requires
        is_newest_first(s),
    ensures
        is_newest_first(insert_by_time(s, x)),
        insert_by_time(s, x).len() == s.len() + 1,
        insert_by_time(s, x).to_multiset() =~= s.to_multiset().insert(x),
        s.len() > 0 ==> insert_by_time(s, x)[0] == s[0] || insert_by_time(s, x)[0] == x,
    decreases s.len(),
{
    broadcast use vstd::seq_lib::group_seq_properties;

    if s.len() == 0 {
        assert(seq![x] =~= s.insert(0, x));
    } else if older(s[0], x) {
        let r = seq![x] + s;
        lemma_lex_lt_asymmetric(s[0].updated_at@, x.updated_at@);
        assert forall|i: int| 0 <= i < r.len() - 1 implies !older(#[trigger] r[i], r[i + 1]) by {
            if i > 0 {
                assert(r[i] == s[i - 1]);
                assert(r[i + 1] == s[i]);
            }
        }
        assert(r =~= s.insert(0, x));
    } else {
        let t = s.drop_first();
        assert forall|i: int| 0 <= i < t.len() - 1 implies !older(#[trigger] t[i], t[i + 1]) by {
            assert(t[i] == s[i + 1]);
            assert(t[i + 1] == s[i + 2]);
        }
        lemma_insert_by_time_sorted(t, x);
        let rest = insert_by_time(t, x);
        let r = seq![s[0]] + rest;
        assert forall|i: int| 0 <= i < r.len() - 1 implies !older(#[trigger] r[i], r[i + 1]) by {
            if i == 0 {
                assert(r[1] == rest[0]);
                if t.len() > 0 {
                    assert(t[0] == s[1]);
                }
            } else {
                assert(r[i] == rest[i - 1]);
                assert(r[i + 1] == rest[i]);
            }
        }
        assert(s =~= t.insert(0, s[0]));
        assert(r =~= rest.insert(0, s[0]));
        assert(r.to_multiset() =~= s.to_multiset().insert(x));
    }
}

/// The newest-first sort is sorted and a permutation of its input.
pub proof fn lemma_newest_first_sorted(s: Seq<HuBoxNotification>)
    ensures
        is_newest_first(newest_first(s)),
        newest_first(s).to_multiset() =~= s.to_multiset(),
        newest_first(s).len() == s.len(),
    decreases s.len(),
{
    broadcast use vstd::seq_lib::group_seq_properties;

    if s.len() > 0 {
        lemma_newest_first_sorted(s.drop_last());
        lemma_insert_by_time_sorted(newest_first(s.drop_last()), s.last());
        assert(s =~= s.drop_last().insert(s.len() - 1, s.last()));
    }
}

/// Whether `a` was updated strictly before `b`.
pub fn is_older(a: &HuBoxNotification, b: &HuBoxNotification) -> (r: bool)
    ensures
        r == older(*a, *b),
{
    str_lt(a.updated_at.as_str(), b.updated_at.as_str())
}

proof fn lemma_insert_by_time_at(s: Seq<HuBoxNotification>, x: HuBoxNotification, i: int)
    requires
        0 <= i <= s.len(),
        forall|j: int| 0 <= j < i ==> !older(#[trigger] s[j], x),
        i < s.len() ==> older(s[i], x),
    ensures
        insert_by_time(s, x) == s.insert(i, x),
    decreases i,
{
    if i == 0 {
        if s.len() == 0 {
            assert(seq![x] =~= s.insert(0, x));
        } else {
            assert(seq![x] + s =~= s.insert(0, x));
        }
    } else {
        let t = s.drop_first();
        assert forall|j: int| 0 <= j < i - 1 implies !older(#[trigger] t[j], x) by {
            assert(t[j] == s[j + 1]);
        }
        assert(!older(s[0], x));
        lemma_insert_by_time_at(t, x, i - 1);
        assert(seq![s[0]] + t.insert(i - 1, x) =~= s.insert(i, x));
    }
}

/// Place `x` into a newest-first vector after every item at least as new.
fn insert_newest_first(v: &mut Vec<HuBoxNotification>, x: HuBoxNotification)
    ensures
        final(v)@ == insert_by_time(old(v)@, x),
{
    let mut i: usize = 0;
    let mut found = false;
    while i < v.len() && !found
        invariant
            i <= v@.len(),
            v@ == old(v)@,
            forall|j: int| 0 <= j < i ==> !older(#[trigger] v@[j], x),
            found ==> i < v@.len() && older(v@[i as int], x),
        decreases v@.len() - i + (if found { 0int } else { 1int }),
    {
        if is_older(&v[i], &x) {
            found = true;
        } else {
            i = i + 1;
        }
    }
    proof {
        lemma_insert_by_time_at(v@, x, i as int);
    }
    v.insert(i, x);
}

/// Stable sort by `updated_at`, newest first.
pub fn sort_newest_first(items: &Vec<HuBoxNotification>) -> (r: Vec<HuBoxNotification>)
    ensures
        r@ == newest_first(items@),
{
    let mut r: Vec<HuBoxNotification> = Vec::new();
    let mut i: usize = 0;
    while i < items.len()
        invariant
            i <= items@.len(),
            r@ == newest_first(items@.take(i as int)),
        decreases items@.len() - i,
    {
        assert(items@.take(i + 1).drop_last() =~= items@.take(i as int));
        insert_newest_first(&mut r, items[i].duplicate());
        i = i + 1;
    }
    assert(items@.take(i as int) =~= items@);
    r
}

} // verus!
