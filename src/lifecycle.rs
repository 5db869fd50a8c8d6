//! What the aggregator guarantees about the life of a contact over frames.
//!
//! A run is modelled by `pending_after` and `events_at`, which apply
//! `next_pending` and `frame_events` frame by frame: exactly the state and
//! the events that `CollisionAggregator::update` is proved to produce.
use vstd::prelude::*;
use crate::collision::{
    admitted, ended, frame_events, kept, keys_unique, next_pending, tracks, ContactPair,
    FrameEvents, RawContact,
};

verus! {

/// How many contacts of `s` are between the entities of `k`.
pub open spec fn key_count<T>(s: Seq<ContactPair<T>>, k: (u64, u64)) -> nat
    decreases s.len(),
{
    if s.len() == 0 {
        0
    } else {
        key_count(s.drop_last(), k) + if s.last().key() == k {
            1nat
        } else {
            0nat
        }
    }
}

/// The physics layer's answers at frame `f` for the contacts of `pending`,
/// where `contact(f, k)` tells whether the entities of `k` touch at frame `f`.
pub open spec fn activity_at<T>(
    pending: Seq<ContactPair<T>>,
    contact: spec_fn(int, (u64, u64)) -> bool,
    f: int,
) -> Seq<bool> {
    Seq::new(pending.len(), |i: int| contact(f, pending[i].key()))
}

/// The contacts tracked before frame `n` of a run that starts from `init`
/// and receives the notifications `frames[f]` at frame `f`.
pub open spec fn pending_after<T>(
    init: Seq<ContactPair<T>>,
    frames: Seq<Seq<RawContact<T>>>,
    contact: spec_fn(int, (u64, u64)) -> bool,
    n: nat,
) -> Seq<ContactPair<T>>
    decreases n,
{
    if n == 0 {
        init
    } else {
        let prev = pending_after(init, frames, contact, (n - 1) as nat);
        next_pending(prev, frames[n - 1], activity_at(prev, contact, n - 1))
    }
}

/// The events of frame `n` of that run.
pub open spec fn events_at<T>(
    init: Seq<ContactPair<T>>,
    frames: Seq<Seq<RawContact<T>>>,
    contact: spec_fn(int, (u64, u64)) -> bool,
    n: nat,
) -> FrameEvents<T> {
    let p = pending_after(init, frames, contact, n);
    frame_events(p, frames[n as int], activity_at(p, contact, n as int))
}

proof fn lemma_kept_ended_members<T>(pending: Seq<ContactPair<T>>, active: Seq<bool>)
    requires
        active.len() == pending.len(),
    ensures
        forall|i: int|
            0 <= i < pending.len() && active[i] ==> exists|x: int|
                0 <= x < kept(pending, active).len() && #[trigger] kept(pending, active)[x] == pending[i],
        forall|i: int|
            0 <= i < pending.len() && !active[i] ==> exists|x: int|
                0 <= x < ended(pending, active).len() && #[trigger] ended(pending, active)[x] == pending[i],
{
    lemma_kept_ended_members_prefix(pending, active, pending.len() as int);
    assert(pending.take(pending.len() as int) =~= pending);
}

proof fn lemma_kept_ended_members_prefix<T>(pending: Seq<ContactPair<T>>, active: Seq<bool>, n: int)
    requires
        active.len() == pending.len(),
        0 <= n <= pending.len(),
    ensures
        forall|i: int|
            0 <= i < n && active[i] ==> exists|x: int|
                0 <= x < kept(pending.take(n), active).len() && #[trigger] kept(pending.take(n), active)[x] == pending[i],
        forall|i: int|
            0 <= i < n && !active[i] ==> exists|x: int|
                0 <= x < ended(pending.take(n), active).len() && #[trigger] ended(pending.take(n), active)[x] == pending[i],
    decreases n,
{
    if n > 0 {
        lemma_kept_ended_members_prefix(pending, active, n - 1);
        let cur = pending.take(n);
        assert(cur.take(n - 1) =~= pending.take(n - 1));
        let ks = kept(pending.take(n - 1), active);
        let es = ended(pending.take(n - 1), active);
        assert forall|i: int| 0 <= i < n && active[i] implies exists|x: int|
            0 <= x < kept(cur, active).len() && #[trigger] kept(cur, active)[x] == pending[i] by {
            if i < n - 1 {
                let x = choose|x: int| 0 <= x < ks.len() && ks[x] == pending[i];
                assert(kept(cur, active)[x] == pending[i]);
            } else {
                assert(kept(cur, active)[ks.len() as int] == pending[i]);
            }
        }
        assert forall|i: int| 0 <= i < n && !active[i] implies exists|x: int|
            0 <= x < ended(cur, active).len() && #[trigger] ended(cur, active)[x] == pending[i] by {
            if i < n - 1 {
                let x = choose|x: int| 0 <= x < es.len() && es[x] == pending[i];
                assert(ended(cur, active)[x] == pending[i]);
            } else {
                assert(ended(cur, active)[es.len() as int] == pending[i]);
            }
        }
    }
}

proof fn lemma_admitted_fresh<T>(base: Seq<ContactPair<T>>, raws: Seq<RawContact<T>>)
    ensures
        forall|x: int|
            0 <= x < admitted(base, raws).len() ==> !tracks(base, #[trigger] admitted(base, raws)[x].key()),
    decreases raws.len(),
{
    if raws.len() > 0 {
        let n = raws.len() - 1;
        let prev = admitted(base, raws.take(n));
        lemma_admitted_fresh(base, raws.take(n));
        let cur = admitted(base, raws);
        assert forall|x: int| 0 <= x < cur.len() implies !tracks(base, #[trigger] cur[x].key()) by {
            if x < prev.len() {
                assert(cur[x] == prev[x]);
            } else {
                let p = cur[x];
                assert(!tracks(base + prev, p.key()));
                if tracks(base, p.key()) {
                    let i = choose|i: int| 0 <= i < base.len() && #[trigger] base[i].key() == p.key();
                    assert((base + prev)[i] == base[i]);
                }
            }
        }
    }
}

/// One frame: a contact that starts is tracked afterwards.
proof fn lemma_started_is_tracked<T>(
    pending: Seq<ContactPair<T>>,
    raws: Seq<RawContact<T>>,
    active: Seq<bool>,
    k: (u64, u64),
)
    requires
        tracks(frame_events(pending, raws, active).started, k),
    ensures
        tracks(next_pending(pending, raws, active), k),
{
    let base = kept(pending, active);
    let adm = admitted(base, raws);
    let x = choose|x: int| 0 <= x < adm.len() && #[trigger] adm[x].key() == k;
    assert((base + adm)[base.len() + x] == adm[x]);
}

/// One frame: a tracked contact that yields no stopped event stays tracked
/// and yields no started event.
proof fn lemma_tracked_survives<T>(
    pending: Seq<ContactPair<T>>,
    raws: Seq<RawContact<T>>,
    active: Seq<bool>,
    k: (u64, u64),
)
    requires
        active.len() == pending.len(),
        tracks(pending, k),
        !tracks(frame_events(pending, raws, active).stopped, k),
    ensures
        tracks(next_pending(pending, raws, active), k),
        !tracks(frame_events(pending, raws, active).started, k),
{
    let base = kept(pending, active);
    let adm = admitted(base, raws);
    lemma_kept_ended_members(pending, active);
    lemma_admitted_fresh(base, raws);
    let i = choose|i: int| 0 <= i < pending.len() && #[trigger] pending[i].key() == k;
    if active[i] {
        let x = choose|x: int| 0 <= x < base.len() && #[trigger] base[x] == pending[i];
        assert(base[x].key() == k);
        assert((base + adm)[x] == base[x]);
        if tracks(adm, k) {
            let y = choose|y: int| 0 <= y < adm.len() && #[trigger] adm[y].key() == k;
            assert(!tracks(base, adm[y].key()));
        }
    } else {
        let es = ended(pending, active);
        let x = choose|x: int| 0 <= x < es.len() && #[trigger] es[x] == pending[i];
        assert(es[x].key() == k);
    }
}

proof fn lemma_tracked_until_stop<T>(
    init: Seq<ContactPair<T>>,
    frames: Seq<Seq<RawContact<T>>>,
    contact: spec_fn(int, (u64, u64)) -> bool,
    k: (u64, u64),
    f1: nat,
    f: nat,
)
    requires
        f1 < f <= frames.len(),
        tracks(pending_after(init, frames, contact, f1 + 1), k),
        forall|g: nat| f1 < g < f ==> !tracks(#[trigger] events_at(init, frames, contact, g).stopped, k),
    ensures
        tracks(pending_after(init, frames, contact, f), k),
    decreases f,
{
    if f > f1 + 1 {
        let g = (f - 1) as nat;
        lemma_tracked_until_stop(init, frames, contact, k, f1, g);
        let p = pending_after(init, frames, contact, g);
        assert(!tracks(events_at(init, frames, contact, g).stopped, k));
        lemma_tracked_survives(p, frames[g as int], activity_at(p, contact, g as int), k);
    }
}

/// A contact never starts twice without stopping in between: in every run
/// of the aggregator, if the contact `k` yields a started event at frame `f1`
/// and again at a later frame `f2`, it yields a stopped event at some frame
/// after `f1` and no later than `f2`.
pub proof fn lemma_no_restart_without_stop<T>(
    init: Seq<ContactPair<T>>,
    frames: Seq<Seq<RawContact<T>>>,
    contact: spec_fn(int, (u64, u64)) -> bool,
    k: (u64, u64),
    f1: nat,
    f2: nat,
)
    requires
        f1 < f2 < frames.len(),
        tracks(events_at(init, frames, contact, f1).started, k),
        tracks(events_at(init, frames, contact, f2).started, k),
    ensures
        exists|f: nat| f1 < f <= f2 && tracks(#[trigger] events_at(init, frames, contact, f).stopped, k),
{
    if !exists|f: nat| f1 < f <= f2 && tracks(#[trigger] events_at(init, frames, contact, f).stopped, k) {
        let at_first = pending_after(init, frames, contact, f1);
        lemma_started_is_tracked(at_first, frames[f1 as int], activity_at(at_first, contact, f1 as int), k);
        lemma_tracked_until_stop(init, frames, contact, k, f1, f2);
        let at_second = pending_after(init, frames, contact, f2);
        assert(!tracks(events_at(init, frames, contact, f2).stopped, k));
        lemma_tracked_survives(at_second, frames[f2 as int], activity_at(at_second, contact, f2 as int), k);
    }
}

proof fn lemma_key_count_push<T>(s: Seq<ContactPair<T>>, x: ContactPair<T>, k: (u64, u64))
    ensures
        key_count(s.push(x), k) == key_count(s, k) + if x.key() == k {
            1nat
        } else {
            0nat
        },
{
    assert(s.push(x).drop_last() =~= s);
}

proof fn lemma_count_prefix<T>(pending: Seq<ContactPair<T>>, active: Seq<bool>, i: int, n: int)
    requires
        keys_unique(pending),
        active.len() == pending.len(),
        0 <= i < pending.len(),
        0 <= n <= pending.len(),
    ensures
        key_count(kept(pending.take(n), active), pending[i].key()) == if i < n && active[i] {
            1nat
        } else {
            0nat
        },
        key_count(ended(pending.take(n), active), pending[i].key()) == if i < n && !active[i] {
            1nat
        } else {
            0nat
        },
    decreases n,
{
    let k = pending[i].key();
    if n > 0 {
        lemma_count_prefix(pending, active, i, n - 1);
        let cur = pending.take(n);
        assert(cur.take(n - 1) =~= pending.take(n - 1));
        assert(cur[n - 1] == pending[n - 1]);
        let ks = kept(pending.take(n - 1), active);
        let es = ended(pending.take(n - 1), active);
        lemma_key_count_push(ks, pending[n - 1], k);
        lemma_key_count_push(es, pending[n - 1], k);
        if n - 1 != i {
            assert(pending[n - 1].key() != pending[i].key());
        }
    }
}

/// A tracked contact leaves exactly when the physics layer first reports it
/// ended: on that frame it yields exactly one stopped event and no staying
/// event; on a frame where it is reported active it yields one staying event
/// and no stopped event.
pub proof fn lemma_stop_exactly_once<T>(
    pending: Seq<ContactPair<T>>,
    raws: Seq<RawContact<T>>,
    active: Seq<bool>,
    i: int,
)
    requires
        keys_unique(pending),
        active.len() == pending.len(),
        0 <= i < pending.len(),
    ensures
        !active[i] ==> key_count(frame_events(pending, raws, active).stopped, pending[i].key()) == 1
            && key_count(frame_events(pending, raws, active).staying, pending[i].key()) == 0,
        active[i] ==> key_count(frame_events(pending, raws, active).stopped, pending[i].key()) == 0
            && key_count(frame_events(pending, raws, active).staying, pending[i].key()) == 1,
{
    lemma_count_prefix(pending, active, i, pending.len() as int);
    assert(pending.take(pending.len() as int) =~= pending);
}

/// Within one frame no contact starts twice, however often the physics
/// layer reports it.
pub proof fn lemma_started_once_per_frame<T>(
    pending: Seq<ContactPair<T>>,
    raws: Seq<RawContact<T>>,
    active: Seq<bool>,
)
    ensures
        keys_unique(frame_events(pending, raws, active).started),
{
    lemma_admitted_unique(kept(pending, active), raws);
}

proof fn lemma_admitted_unique<T>(base: Seq<ContactPair<T>>, raws: Seq<RawContact<T>>)
    ensures
        keys_unique(admitted(base, raws)),
    decreases raws.len(),
{
    if raws.len() > 0 {
        let n = raws.len() - 1;
        let prev = admitted(base, raws.take(n));
        lemma_admitted_unique(base, raws.take(n));
        let cur = admitted(base, raws);
        if cur.len() > prev.len() {
            let p = cur[prev.len() as int];
            assert forall|x: int, z: int| 0 <= x < cur.len() && 0 <= z < cur.len() && x != z
                implies #[trigger] cur[x].key() != #[trigger] cur[z].key() by {
                if x < prev.len() && z < prev.len() {
                    assert(cur[x] == prev[x] && cur[z] == prev[z]);
                } else if x < prev.len() {
                    assert(cur[x] == prev[x]);
                    assert((base + prev)[base.len() + x] == prev[x]);
                } else {
                    assert(cur[z] == prev[z]);
                    assert((base + prev)[base.len() + z] == prev[z]);
                }
            }
        }
    }
}

} // verus!
