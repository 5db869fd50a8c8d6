use vstd::prelude::*;

verus! {

/// The gameplay category of a collidable entity, independent of its shape.
#[derive(Clone, Copy, Debug, PartialEq, Eq, Structural)]
pub enum CollidableKind {
    Player,
    Bullet,
    Enemy,
    Ground,
    Wall,
}

/// One participant of a contact: the entity, its kind, and a snapshot of its
/// transform taken when the contact was first seen.
#[derive(Clone, Copy, Debug)]
pub struct ObjectInfo<T> {
    pub entity: u64,
    pub kind: CollidableKind,
    pub transform: T,
}

/// Whether the two participants hold the two given kinds, in either order.
pub open spec fn pair_has_kinds<T>(
    a: ObjectInfo<T>,
    b: ObjectInfo<T>,
    k1: CollidableKind,
    k2: CollidableKind,
) -> bool {
    (a.kind == k1 && b.kind == k2) || (a.kind == k2 && b.kind == k1)
}

/// Kind filtering does not depend on the side: the pair `(a, b)` holds the
/// kinds `k1` and `k2` exactly when `(b, a)` does, and exactly when it holds
/// `k2` and `k1`.
pub proof fn lemma_kind_filter_symmetric<T>(
    a: ObjectInfo<T>,
    b: ObjectInfo<T>,
    k1: CollidableKind,
    k2: CollidableKind,
)
    ensures
        pair_has_kinds(a, b, k1, k2) == pair_has_kinds(b, a, k1, k2),
        pair_has_kinds(a, b, k1, k2) == pair_has_kinds(a, b, k2, k1),
{
}

/// Tests whether the pair holds the kinds `k1` and `k2`, whichever side holds which.
pub fn involves_kinds<T>(
    a: &ObjectInfo<T>,
    b: &ObjectInfo<T>,
    k1: CollidableKind,
    k2: CollidableKind,
) -> (r: bool)
    ensures
        r == pair_has_kinds(*a, *b, k1, k2),
{
    (a.kind == k1 && b.kind == k2) || (a.kind == k2 && b.kind == k1)
}

/// Key of the unordered pair of entities `a` and `b`: the smaller id first.
pub open spec fn key_of(a: u64, b: u64) -> (u64, u64) {
    if a <= b {
        (a, b)
    } else {
        (b, a)
    }
}

/// Two participants in contact, as the physics layer first reported them.
#[derive(Clone, Copy, Debug)]
pub struct ContactPair<T>(pub ObjectInfo<T>, pub ObjectInfo<T>);

/// The same contacts with the two sides of each exchanged.
pub open spec fn swapped<T>(s: Seq<ContactPair<T>>) -> Seq<ContactPair<T>> {
    s.map_values(|p: ContactPair<T>| ContactPair(p.1, p.0))
}

impl<T> ContactPair<T> {
    /// The unordered pair of entities that identifies this contact.
    pub open spec fn key(self) -> (u64, u64) {
        key_of(self.0.entity, self.1.entity)
    }

    /// Tests whether this contact is between the entities `a` and `b`, in either order.
    pub fn is_between(&self, a: u64, b: u64) -> (r: bool)
        ensures
            r == (self.key() == key_of(a, b)),
    {
        (self.0.entity == a && self.1.entity == b) || (self.0.entity == b && self.1.entity == a)
    }
}

/// A contact between two participants began.
#[derive(Clone, Copy, Debug)]
pub struct CollisionStartEvent<T>(pub ObjectInfo<T>, pub ObjectInfo<T>);

/// A contact that began in an earlier frame is still active.
#[derive(Clone, Copy, Debug)]
pub struct CollisionStayEvent<T>(pub ObjectInfo<T>, pub ObjectInfo<T>);

/// A contact that was active in an earlier frame has ended.
#[derive(Clone, Copy, Debug)]
pub struct CollisionStopEvent<T>(pub ObjectInfo<T>, pub ObjectInfo<T>);

impl<T> CollisionStartEvent<T> {
    pub open spec fn pair(self) -> ContactPair<T> {
        ContactPair(self.0, self.1)
    }
}

impl<T> CollisionStayEvent<T> {
    pub open spec fn pair(self) -> ContactPair<T> {
        ContactPair(self.0, self.1)
    }
}

impl<T> CollisionStopEvent<T> {
    pub open spec fn pair(self) -> ContactPair<T> {
        ContactPair(self.0, self.1)
    }
}

pub open spec fn start_pairs<T>(s: Seq<CollisionStartEvent<T>>) -> Seq<ContactPair<T>> {
    s.map_values(|e: CollisionStartEvent<T>| e.pair())
}

pub open spec fn stay_pairs<T>(s: Seq<CollisionStayEvent<T>>) -> Seq<ContactPair<T>> {
    s.map_values(|e: CollisionStayEvent<T>| e.pair())
}

pub open spec fn stop_pairs<T>(s: Seq<CollisionStopEvent<T>>) -> Seq<ContactPair<T>> {
    s.map_values(|e: CollisionStopEvent<T>| e.pair())
}

/// The events of one frame, as contact pairs.
pub struct FrameEvents<T> {
    pub started: Seq<ContactPair<T>>,
    pub staying: Seq<ContactPair<T>>,
    pub stopped: Seq<ContactPair<T>>,
}

/// The collision events published for one frame, one list per kind of event.
pub struct CollisionEvents<T> {
    pub start_events: Vec<CollisionStartEvent<T>>,
    pub stay_events: Vec<CollisionStayEvent<T>>,
    pub stop_events: Vec<CollisionStopEvent<T>>,
}

impl<T> View for CollisionEvents<T> {
    type V = FrameEvents<T>;

    open spec fn view(&self) -> FrameEvents<T> {
        FrameEvents {
            started: start_pairs(self.start_events@),
            staying: stay_pairs(self.stay_events@),
            stopped: stop_pairs(self.stop_events@),
        }
    }
}

/// A contact-start notification from the physics layer, with both entities
/// looked up: `None` stands for an entity that has no kind or no transform.
#[derive(Clone, Copy, Debug)]
pub struct RawContact<T> {
    pub a: Option<ObjectInfo<T>>,
    pub b: Option<ObjectInfo<T>>,
}

/// The contact a notification describes, if both of its entities take part in gameplay.
pub open spec fn resolve<T>(raw: RawContact<T>) -> Option<ContactPair<T>> {
    match (raw.a, raw.b) {
        (Some(a), Some(b)) => Some(ContactPair(a, b)),
        _ => None,
    }
}

impl<T: Copy> RawContact<T> {
    /// The contact this notification describes; `None` where either entity
    /// has no kind, which leaves the notification out of gameplay.
    pub fn resolve(&self) -> (r: Option<ContactPair<T>>)
        ensures
            r == resolve(*self),
    {
        match (self.a, self.b) {
            (Some(a), Some(b)) => Some(ContactPair(a, b)),
            _ => None,
        }
    }
}

/// Whether some contact of `s` is between the entities of `k`.
pub open spec fn tracks<T>(s: Seq<ContactPair<T>>, k: (u64, u64)) -> bool {
    exists|i: int| 0 <= i < s.len() && #[trigger] s[i].key() == k
}

/// No two contacts of `s` are between the same entities.
pub open spec fn keys_unique<T>(s: Seq<ContactPair<T>>) -> bool {
    forall|i: int, j: int|
        0 <= i < s.len() && 0 <= j < s.len() && i != j ==> #[trigger] s[i].key() != #[trigger] s[j].key()
}

/// The tracked contacts that the physics layer reports still active, in order.
pub open spec fn kept<T>(pending: Seq<ContactPair<T>>, active: Seq<bool>) -> Seq<ContactPair<T>>
    decreases pending.len(),
{
    if pending.len() == 0 {
        Seq::empty()
    } else {
        let n = pending.len() - 1;
        let rest = kept(pending.take(n), active);
        if active[n] {
            rest.push(pending[n])
        } else {
            rest
        }
    }
}

/// The tracked contacts that the physics layer reports ended, in order.
pub open spec fn ended<T>(pending: Seq<ContactPair<T>>, active: Seq<bool>) -> Seq<ContactPair<T>>
    decreases pending.len(),
{
    if pending.len() == 0 {
        Seq::empty()
    } else {
        let n = pending.len() - 1;
        let rest = ended(pending.take(n), active);
        if active[n] {
            rest
        } else {
            rest.push(pending[n])
        }
    }
}

/// The contacts that start this frame: each notification in order whose
/// entities both take part in gameplay and whose pair is not tracked yet,
/// neither from earlier frames (`base`) nor from an earlier notification.
pub open spec fn admitted<T>(base: Seq<ContactPair<T>>, raws: Seq<RawContact<T>>) -> Seq<ContactPair<T>>
    decreases raws.len(),
{
    if raws.len() == 0 {
        Seq::empty()
    } else {
        let n = raws.len() - 1;
        let prev = admitted(base, raws.take(n));
        match resolve(raws[n]) {
            Some(p) => if tracks(base + prev, p.key()) {
                prev
            } else {
                prev.push(p)
            },
            None => prev,
        }
    }
}

/// The contacts tracked after a frame.
pub open spec fn next_pending<T>(
    pending: Seq<ContactPair<T>>,
    raws: Seq<RawContact<T>>,
    active: Seq<bool>,
) -> Seq<ContactPair<T>> {
    let base = kept(pending, active);
    base + admitted(base, raws)
}

/// The events of a frame.
pub open spec fn frame_events<T>(
    pending: Seq<ContactPair<T>>,
    raws: Seq<RawContact<T>>,
    active: Seq<bool>,
) -> FrameEvents<T> {
    FrameEvents {
        started: admitted(kept(pending, active), raws),
        staying: kept(pending, active),
        stopped: ended(pending, active),
    }
}

/// Turns the physics layer's contact notifications into de-duplicated
/// started, staying and stopped events, frame after frame.
pub struct CollisionAggregator<T> {
    pending: Vec<ContactPair<T>>,
}

impl<T> View for CollisionAggregator<T> {
    type V = Seq<ContactPair<T>>;

    closed spec fn view(&self) -> Seq<ContactPair<T>> {
        self.pending@
    }
}

impl<T: Copy> CollisionAggregator<T> {
    pub open spec fn wf(&self) -> bool {
        keys_unique(self@)
    }

    /// An aggregator that tracks no contact.
    pub fn new() -> (r: Self)
        ensures
            r@ == Seq::<ContactPair<T>>::empty(),
            r.wf(),
    {
        CollisionAggregator { pending: Vec::new() }
    }

    /// The contacts tracked from earlier frames, in the order in which
    /// `update` expects the physics layer's answers.
    pub fn pending_contacts(&self) -> (r: &Vec<ContactPair<T>>)
        ensures
            r@ == self@,
    {
        &self.pending
    }

    /// Tests whether a contact between `a` and `b` is tracked.
    pub fn is_tracking(&self, a: u64, b: u64) -> (r: bool)
        ensures
            r == tracks(self@, key_of(a, b)),
    {
        contains_pair(&self.pending, a, b)
    }
}

impl<T: Copy> CollisionAggregator<T> {
    /// Runs one frame. `raws` are this frame's contact-start notifications;
    /// `active[i]` is the physics layer's answer, taken this frame, to whether
    /// the `i`-th pending contact still has an active contact point.
    ///
    /// Each pending contact yields a staying event and stays tracked, or
    /// yields a stopped event and is dropped. Then each notification whose
    /// entities both have a kind, and whose pair is not tracked, yields a
    /// started event and becomes tracked.
    pub fn update(&mut self, raws: &Vec<RawContact<T>>, active: &Vec<bool>) -> (events: CollisionEvents<T>)
        requires
            old(self).wf(),
            active@.len() == old(self)@.len(),
        ensures
            final(self).wf(),
            final(self)@ == next_pending(old(self)@, raws@, active@),
            events@ == frame_events(old(self)@, raws@, active@),
    {
        let ghost pending = self.pending@;
        let mut still: Vec<ContactPair<T>> = Vec::new();
        let mut stay_events: Vec<CollisionStayEvent<T>> = Vec::new();
        let mut stop_events: Vec<CollisionStopEvent<T>> = Vec::new();
        let mut i: usize = 0;
        while i < self.pending.len()
            invariant
                self.pending@ == pending,
                keys_unique(pending),
                active@.len() == pending.len(),
                0 <= i <= pending.len(),
                still@ == kept(pending.take(i as int), active@),
                stay_pairs(stay_events@) == still@,
                stop_pairs(stop_events@) == ended(pending.take(i as int), active@),
                keys_unique(still@),
                forall|x: int| 0 <= x < still@.len() ==> exists|y: int| 0 <= y < i && pending[y] == #[trigger] still@[x],
            decreases pending.len() - i,
        {
            let p = self.pending[i];
            let ghost prev_still = still@;
            proof {
                assert(pending.take(i + 1).take(i as int) =~= pending.take(i as int));
                assert(pending.take(i + 1)[i as int] == pending[i as int]);
            }
            if active[i] {
                still.push(p);
                stay_events.push(CollisionStayEvent(p.0, p.1));
                proof {
                    assert(stay_pairs(stay_events@) =~= still@);
                    assert forall|x: int| 0 <= x < still@.len() implies exists|y: int| 0 <= y < i + 1 && pending[y] == #[trigger] still@[x] by {
                        if x < prev_still.len() {
                            assert(prev_still[x] == still@[x]);
                        } else {
                            assert(pending[i as int] == still@[x]);
                        }
                    }
                    assert forall|x: int, z: int| 0 <= x < still@.len() && 0 <= z < still@.len() && x != z implies #[trigger] still@[x].key() != #[trigger] still@[z].key() by {
                        if x < prev_still.len() && z < prev_still.len() {
                            assert(prev_still[x] == still@[x] && prev_still[z] == still@[z]);
                        } else if x < prev_still.len() {
                            assert(prev_still[x] == still@[x]);
                            let y = choose|y: int| 0 <= y < i && pending[y] == prev_still[x];
                            assert(pending[y].key() != pending[i as int].key());
                        } else {
                            assert(prev_still[z] == still@[z]);
                            let y = choose|y: int| 0 <= y < i && pending[y] == prev_still[z];
                            assert(pending[y].key() != pending[i as int].key());
                        }
                    }
                }
            } else {
                stop_events.push(CollisionStopEvent(p.0, p.1));
                proof {
                    assert(stop_pairs(stop_events@) =~= ended(pending.take(i as int), active@).push(p));
                    assert forall|x: int| 0 <= x < still@.len() implies exists|y: int| 0 <= y < i + 1 && pending[y] == #[trigger] still@[x] by {
                        let y = choose|y: int| 0 <= y < i && pending[y] == still@[x];
                    }
                }
            }
            i += 1;
        }
        proof {
            assert(pending.take(pending.len() as int) =~= pending);
        }
        let ghost base = still@;
        let mut start_events: Vec<CollisionStartEvent<T>> = Vec::new();
        let mut j: usize = 0;
        while j < raws.len()
            invariant
                base == kept(pending, active@),
                keys_unique(base),
                0 <= j <= raws@.len(),
                start_pairs(start_events@) == admitted(base, raws@.take(j as int)),
                still@ == base + start_pairs(start_events@),
                keys_unique(still@),
            decreases raws@.len() - j,
        {
            let ghost prev = start_pairs(start_events@);
            proof {
                assert(raws@.take(j + 1).take(j as int) =~= raws@.take(j as int));
                assert(raws@.take(j + 1)[j as int] == raws@[j as int]);
            }
            match raws[j].resolve() {
                Some(p) => {
                    if !contains_pair(&still, p.0.entity, p.1.entity) {
                        let ghost prev_still = still@;
                        still.push(p);
                        start_events.push(CollisionStartEvent(p.0, p.1));
                        proof {
                            assert(start_pairs(start_events@) =~= prev.push(p));
                            assert(still@ =~= base + start_pairs(start_events@));
                            assert forall|x: int, z: int| 0 <= x < still@.len() && 0 <= z < still@.len() && x != z implies #[trigger] still@[x].key() != #[trigger] still@[z].key() by {
                                if x < prev_still.len() && z < prev_still.len() {
                                    assert(prev_still[x] == still@[x] && prev_still[z] == still@[z]);
                                } else if x < prev_still.len() {
                                    assert(prev_still[x] == still@[x]);
                                } else {
                                    assert(prev_still[z] == still@[z]);
                                }
                            }
                        }
                    }
                }
                None => {}
            }
            j += 1;
        }
        proof {
            assert(raws@.take(raws@.len() as int) =~= raws@);
        }
        self.pending = still;
        CollisionEvents { start_events, stay_events, stop_events }
    }
}

fn contains_pair<T>(v: &Vec<ContactPair<T>>, a: u64, b: u64) -> (r: bool)
    ensures
        r == tracks(v@, key_of(a, b)),
{
    let mut i: usize = 0;
    while i < v.len()
        invariant
            0 <= i <= v@.len(),
            forall|j: int| 0 <= j < i ==> v@[j].key() != key_of(a, b),
        decreases v@.len() - i,
    {
        if v[i].is_between(a, b) {
            return true;
        }
        i += 1;
    }
    false
}

/// Whether `x`, in contact with `other`, is a participant of kind `victim`
/// struck by one of the kinds `culprits`.
pub open spec fn is_struck<T>(
    x: ObjectInfo<T>,
    other: ObjectInfo<T>,
    victim: CollidableKind,
    culprits: Seq<CollidableKind>,
) -> bool {
    x.kind == victim && culprits.contains(other.kind)
}

/// Whether some participant of `s` is the entity `e`.
pub open spec fn has_entity<T>(s: Seq<ObjectInfo<T>>, e: u64) -> bool {
    exists|i: int| 0 <= i < s.len() && #[trigger] s[i].entity == e
}

/// `acc`, followed by `x` when `x` is struck and not in `acc` yet.
pub open spec fn note_struck<T>(
    acc: Seq<ObjectInfo<T>>,
    x: ObjectInfo<T>,
    other: ObjectInfo<T>,
    victim: CollidableKind,
    culprits: Seq<CollidableKind>,
) -> Seq<ObjectInfo<T>> {
    if is_struck(x, other, victim, culprits) && !has_entity(acc, x.entity) {
        acc.push(x)
    } else {
        acc
    }
}

/// The struck participants of the contacts `s`, each entity once, in the
/// order of its first contact (first side before second side).
pub open spec fn struck<T>(
    s: Seq<ContactPair<T>>,
    victim: CollidableKind,
    culprits: Seq<CollidableKind>,
) -> Seq<ObjectInfo<T>>
    decreases s.len(),
{
    if s.len() == 0 {
        Seq::empty()
    } else {
        let p = s.last();
        let prev = struck(s.drop_last(), victim, culprits);
        note_struck(note_struck(prev, p.0, p.1, victim, culprits), p.1, p.0, victim, culprits)
    }
}

fn kind_in(k: CollidableKind, kinds: &Vec<CollidableKind>) -> (r: bool)
    ensures
        r == kinds@.contains(k),
{
    let mut i: usize = 0;
    while i < kinds.len()
        invariant
            0 <= i <= kinds@.len(),
            forall|j: int| 0 <= j < i ==> kinds@[j] != k,
        decreases kinds@.len() - i,
    {
        if kinds[i] == k {
            return true;
        }
        i += 1;
    }
    false
}

fn contains_entity<T>(v: &Vec<ObjectInfo<T>>, e: u64) -> (r: bool)
    ensures
        r == has_entity(v@, e),
{
    let mut i: usize = 0;
    while i < v.len()
        invariant
            0 <= i <= v@.len(),
            forall|j: int| 0 <= j < i ==> v@[j].entity != e,
        decreases v@.len() - i,
    {
        if v[i].entity == e {
            return true;
        }
        i += 1;
    }
    false
}

fn add_if_struck<T: Copy>(
    acc: &mut Vec<ObjectInfo<T>>,
    x: ObjectInfo<T>,
    other: ObjectInfo<T>,
    victim: CollidableKind,
    culprits: &Vec<CollidableKind>,
)
    ensures
        final(acc)@ == note_struck(old(acc)@, x, other, victim, culprits@),
{
    if x.kind == victim && kind_in(other.kind, culprits) && !contains_entity(acc, x.entity) {
        acc.push(x);
    }
}

/// The participants of kind `victim` that a started contact puts against a
/// participant of one of the kinds `culprits`: each entity once, in the
/// order of its first such contact.
pub fn struck_participants<T: Copy>(
    start_events: &Vec<CollisionStartEvent<T>>,
    victim: CollidableKind,
    culprits: &Vec<CollidableKind>,
) -> (r: Vec<ObjectInfo<T>>)
    ensures
        r@ == struck(start_pairs(start_events@), victim, culprits@),
{
    let ghost s = start_pairs(start_events@);
    let mut r: Vec<ObjectInfo<T>> = Vec::new();
    let mut i: usize = 0;
    while i < start_events.len()
        invariant
            0 <= i <= start_events@.len(),
            s == start_pairs(start_events@),
            r@ == struck(s.take(i as int), victim, culprits@),
        decreases start_events@.len() - i,
    {
        let e = start_events[i];
        proof {
            assert(s.take(i + 1).drop_last() =~= s.take(i as int));
            assert(s.take(i + 1).last() == e.pair());
        }
        add_if_struck(&mut r, e.0, e.1, victim, culprits);
        add_if_struck(&mut r, e.1, e.0, victim, culprits);
        i += 1;
    }
    proof {
        assert(s.take(s.len() as int) =~= s);
    }
    r
}

} // verus!
