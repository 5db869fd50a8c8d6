use arena_shooter::collision::{
    CollidableKind, CollisionAggregator, CollisionEvents, ObjectInfo, RawContact,
};

type Pos = [f32; 3];

fn info(entity: u64, kind: CollidableKind, x: f32) -> ObjectInfo<Pos> {
    ObjectInfo { entity, kind, transform: [x, 0.0, 0.0] }
}

fn raw(a: ObjectInfo<Pos>, b: ObjectInfo<Pos>) -> RawContact<Pos> {
    RawContact { a: Some(a), b: Some(b) }
}

/// Answers the aggregator's query for every tracked contact with `touching`.
fn frame(
    agg: &mut CollisionAggregator<Pos>,
    raws: &Vec<RawContact<Pos>>,
    touching: &dyn Fn(u64, u64) -> bool,
) -> CollisionEvents<Pos> {
    let active: Vec<bool> =
        agg.pending_contacts().iter().map(|p| touching(p.0.entity, p.1.entity)).collect();
    agg.update(raws, &active)
}

fn counts(e: &CollisionEvents<Pos>) -> (usize, usize, usize) {
    (e.start_events.len(), e.stay_events.len(), e.stop_events.len())
}

#[test]
fn player_enemy_contact_runs_start_stay_stop() {
    let mut agg = CollisionAggregator::new();
    let player = info(1, CollidableKind::Player, 0.0);
    let enemy = info(2, CollidableKind::Enemy, 1.0);

    // frame N: contact begins
    let e = frame(&mut agg, &vec![raw(player, enemy)], &|_, _| true);
    assert_eq!(counts(&e), (1, 0, 0));
    assert_eq!(e.start_events[0].0.entity, 1);
    assert_eq!(e.start_events[0].1.entity, 2);
    assert_eq!(e.start_events[0].0.kind, CollidableKind::Player);
    assert_eq!(e.start_events[0].1.kind, CollidableKind::Enemy);

    // frames N+1 .. N+3: contact persists
    for _ in 0..3 {
        let e = frame(&mut agg, &vec![], &|_, _| true);
        assert_eq!(counts(&e), (0, 1, 0));
        assert_eq!(e.stay_events[0].0.entity, 1);
        assert_eq!(e.stay_events[0].1.entity, 2);
    }

    // frame N+4: separated
    let e = frame(&mut agg, &vec![], &|_, _| false);
    assert_eq!(counts(&e), (0, 0, 1));
    assert_eq!(e.stop_events[0].0.entity, 1);
    assert_eq!(e.stop_events[0].1.entity, 2);
    assert!(!agg.is_tracking(1, 2));

    // nothing more afterwards
    let e = frame(&mut agg, &vec![], &|_, _| false);
    assert_eq!(counts(&e), (0, 0, 0));
}

#[test]
fn entity_without_kind_yields_no_event() {
    let mut agg = CollisionAggregator::new();
    let player = info(1, CollidableKind::Player, 0.0);
    let prop = RawContact { a: None, b: Some(player) };
    let prop_other_side = RawContact { a: Some(player), b: None };
    let e = frame(&mut agg, &vec![prop, prop_other_side], &|_, _| true);
    assert_eq!(counts(&e), (0, 0, 0));
    assert!(agg.pending_contacts().is_empty());
    let e = frame(&mut agg, &vec![], &|_, _| true);
    assert_eq!(counts(&e), (0, 0, 0));
}

#[test]
fn repeated_notifications_start_once() {
    let mut agg = CollisionAggregator::new();
    let a = info(5, CollidableKind::Bullet, 0.0);
    let b = info(9, CollidableKind::Wall, 3.0);
    // reported twice, once from each side, in one frame
    let e = frame(&mut agg, &vec![raw(a, b), raw(b, a)], &|_, _| true);
    assert_eq!(counts(&e), (1, 0, 0));
    assert_eq!(agg.pending_contacts().len(), 1);
    assert!(agg.is_tracking(9, 5));
    // reported again while still in contact: staying, not started
    let e = frame(&mut agg, &vec![raw(a, b)], &|_, _| true);
    assert_eq!(counts(&e), (0, 1, 0));
    assert_eq!(agg.pending_contacts().len(), 1);
}

#[test]
fn contact_restarts_only_after_stop() {
    let mut agg = CollisionAggregator::new();
    let a = info(1, CollidableKind::Player, 0.0);
    let b = info(2, CollidableKind::Enemy, 0.0);
    let e = frame(&mut agg, &vec![raw(a, b)], &|_, _| true);
    assert_eq!(counts(&e), (1, 0, 0));
    // ended and begun again within the same frame: one stop, then one start
    let e = frame(&mut agg, &vec![raw(a, b)], &|_, _| false);
    assert_eq!(counts(&e), (1, 0, 1));
    assert!(agg.is_tracking(1, 2));
    let e = frame(&mut agg, &vec![], &|_, _| true);
    assert_eq!(counts(&e), (0, 1, 0));
}

#[test]
fn stopped_once_per_ended_contact_among_several() {
    let mut agg = CollisionAggregator::new();
    let p = info(1, CollidableKind::Player, 0.0);
    let e1 = info(2, CollidableKind::Enemy, 0.0);
    let e2 = info(3, CollidableKind::Enemy, 0.0);
    let g = info(4, CollidableKind::Ground, 0.0);
    let ev = frame(&mut agg, &vec![raw(p, e1), raw(p, e2), raw(p, g)], &|_, _| true);
    assert_eq!(counts(&ev), (3, 0, 0));
    // only the pair with entity 3 separates
    let ev = frame(&mut agg, &vec![], &|a, b| a != 3 && b != 3);
    assert_eq!(counts(&ev), (0, 2, 1));
    assert_eq!(ev.stop_events[0].1.entity, 3);
    assert_eq!(ev.stay_events[0].1.entity, 2);
    assert_eq!(ev.stay_events[1].1.entity, 4);
    let ev = frame(&mut agg, &vec![], &|a, b| a != 3 && b != 3);
    assert_eq!(counts(&ev), (0, 2, 0));
}

#[test]
fn snapshot_is_kept_from_contact_time() {
    let mut agg = CollisionAggregator::new();
    let a = info(1, CollidableKind::Bullet, 4.5);
    let b = info(2, CollidableKind::Wall, -2.0);
    frame(&mut agg, &vec![raw(a, b)], &|_, _| true);
    let moved = info(1, CollidableKind::Bullet, 100.0);
    let e = frame(&mut agg, &vec![raw(moved, b)], &|_, _| true);
    assert_eq!(counts(&e), (0, 1, 0));
    assert_eq!(e.stay_events[0].0.transform, [4.5, 0.0, 0.0]);
    assert_eq!(e.stay_events[0].1.transform, [-2.0, 0.0, 0.0]);
}

#[test]
fn resolve_needs_both_participants() {
    let a = info(1, CollidableKind::Enemy, 0.0);
    let b = info(2, CollidableKind::Bullet, 0.0);
    let p = raw(a, b).resolve().unwrap();
    assert_eq!((p.0.entity, p.1.entity), (1, 2));
    assert!(RawContact::<Pos> { a: None, b: Some(b) }.resolve().is_none());
    assert!(RawContact::<Pos> { a: Some(a), b: None }.resolve().is_none());
    assert!(RawContact::<Pos> { a: None, b: None }.resolve().is_none());
}

#[test]
fn contact_pair_key_is_unordered() {
    let a = info(7, CollidableKind::Enemy, 0.0);
    let b = info(3, CollidableKind::Bullet, 0.0);
    let p = raw(a, b).resolve().unwrap();
    assert!(p.is_between(7, 3));
    assert!(p.is_between(3, 7));
    assert!(!p.is_between(7, 7));
    assert!(!p.is_between(3, 4));
}
