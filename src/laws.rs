//! Properties of the coordinator over whole runs of events.

use vstd::prelude::*;
use crate::registry::{
    Conn, listed, without, ids_of, distinct_ids, lemma_without_unlisted, lemma_without_members,
    lemma_without_distinct, lemma_without_listed_len,
};
use crate::coordinator::{Event, next, admissible, failed};

verus! {

/// The registry after the events `evs`, starting from an empty one.
pub open spec fn run<H>(evs: Seq<Event<H>>) -> Seq<Conn<H>>
    decreases evs.len(),
{
    if evs.len() == 0 {
        Seq::empty()
    } else {
        next(run(evs.drop_last()), evs.last())
    }
}

/// Every join of `evs` brings an identity that is not registered at that point.
pub open spec fn fresh_joins<H>(evs: Seq<Event<H>>) -> bool
    decreases evs.len(),
{
    evs.len() == 0 || (fresh_joins(evs.drop_last()) && admissible(run(evs.drop_last()), evs.last()))
}

/// The number of joins in `evs`.
pub open spec fn joins<H>(evs: Seq<Event<H>>) -> nat
    decreases evs.len(),
{
    if evs.len() == 0 {
        0
    } else {
        joins(evs.drop_last()) + if evs.last() is Join { 1nat } else { 0nat }
    }
}

/// `ev` is a leave or a kick of an identity registered in `s`.
pub open spec fn departs<H>(s: Seq<Conn<H>>, ev: Event<H>) -> bool {
    match ev {
        Event::Leave(id) => listed(s, id),
        Event::Kick(id) => listed(s, id),
        _ => false,
    }
}

/// The number of leaves and kicks in `evs` that found their identity registered.
pub open spec fn departures<H>(evs: Seq<Event<H>>) -> nat
    decreases evs.len(),
{
    if evs.len() == 0 {
        0
    } else {
        departures(evs.drop_last()) + if departs(run(evs.drop_last()), evs.last()) { 1nat } else { 0nat }
    }
}

/// The registry's size is the number of joins minus the number of leaves and kicks
/// that removed a registered identity; identities never repeat.
pub proof fn lemma_size_counts<H>(evs: Seq<Event<H>>)
    requires
        fresh_joins(evs),
    ensures
        distinct_ids(run(evs)),
        run(evs).len() == joins(evs) - departures(evs),
    decreases evs.len(),
{
    if evs.len() > 0 {
        let pre = evs.drop_last();
        let s = run(pre);
        lemma_size_counts(pre);
        match evs.last() {
            Event::Join(id, h) => {
                let t = s.push((Conn { id, handle: h }));
                assert forall|i: int, j: int| 0 <= i < t.len() && 0 <= j < t.len() && i != j implies t[i].id != t[j].id by {
                    if i == s.len() {
                        assert(t[j] == s[j]);
                    } else if j == s.len() {
                        assert(t[i] == s[i]);
                    } else {
                        assert(t[i] == s[i] && t[j] == s[j]);
                    }
                }
            },
            Event::Leave(id) => {
                lemma_without_distinct(s, set![id]);
                if listed(s, id) {
                    lemma_without_listed_len(s, id);
                } else {
                    lemma_without_unlisted(s, set![id]);
                }
            },
            Event::Kick(id) => {
                lemma_without_distinct(s, set![id]);
                if listed(s, id) {
                    lemma_without_listed_len(s, id);
                } else {
                    lemma_without_unlisted(s, set![id]);
                }
            },
            Event::Publish(_) => {},
        }
    }
}

/// After a leave or a kick of `id`, `id` is no longer registered, and a publish
/// that follows is not written to it.
pub proof fn lemma_departed_not_targeted<H>(s: Seq<Conn<H>>, id: u64, payload: String)
    ensures
        !listed(next(s, Event::<H>::Leave(id)), id),
        !listed(next(s, Event::<H>::Kick(id)), id),
        !ids_of(next(next(s, Event::<H>::Leave(id)), Event::Publish(payload))).contains(id),
        !ids_of(next(next(s, Event::<H>::Kick(id)), Event::Publish(payload))).contains(id),
{
    let w = without(s, set![id]);
    lemma_without_members(s, set![id]);
    assert forall|i: int| 0 <= i < w.len() implies w[i].id != id by {
        assert(w.contains(w[i]));
    }
    assert forall|i: int| 0 <= i < ids_of(w).len() implies ids_of(w)[i] != id by {
        assert(w.contains(w[i]));
    }
}

/// When the write to `sent[k]` fails during a fan-out to every connection of `s`,
/// settling removes that connection and keeps every other one, in the same order.
pub proof fn lemma_failed_write_isolated<H>(s: Seq<Conn<H>>, delivered: Seq<bool>, k: int)
    requires
        distinct_ids(s),
        delivered.len() == s.len(),
        0 <= k < s.len(),
        !delivered[k],
    ensures
        !listed(without(s, failed(ids_of(s), delivered)), s[k].id),
        forall|j: int|
            0 <= j < s.len() && delivered[j] ==> without(s, failed(ids_of(s), delivered)).contains(
                #[trigger] s[j],
            ),
{
    let f = failed(ids_of(s), delivered);
    let w = without(s, f);
    lemma_without_members(s, f);
    assert(ids_of(s)[k] == s[k].id);
    assert(f.contains(s[k].id));
    assert forall|i: int| 0 <= i < w.len() implies w[i].id != s[k].id by {
        assert(w.contains(w[i]));
    }
    assert forall|j: int| 0 <= j < s.len() && delivered[j] implies w.contains(#[trigger] s[j]) by {
        if f.contains(s[j].id) {
            let m = choose|m: int|
                0 <= m < ids_of(s).len() && m < delivered.len() && ids_of(s)[m] == s[j].id && !delivered[m];
            assert(s[m].id == s[j].id);
        }
        assert(s.contains(s[j]));
    }
}

/// Unregistering an identity twice has the effect of unregistering it once.
pub proof fn lemma_unregister_idempotent<H>(s: Seq<Conn<H>>, id: u64)
    ensures
        !listed(without(s, set![id]), id),
        without(without(s, set![id]), set![id]) == without(s, set![id]),
{
    let w = without(s, set![id]);
    lemma_without_members(s, set![id]);
    assert forall|i: int| 0 <= i < w.len() implies !set![id].contains(#[trigger] w[i].id) by {
        assert(w.contains(w[i]));
    }
    lemma_without_unlisted(w, set![id]);
}

} // verus!
