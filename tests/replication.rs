use netsync::animation::{AnimationController, AnimationEntity, AnimationState};
use netsync::entity::EntityId;
use netsync::mapping::EntityMapping;
use netsync::network::{NetworkComponent, NetworkState};
use netsync::world::{FrameError, ServerFrame, World};

#[derive(Debug, Clone, Copy, PartialEq)]
struct Position {
    x: i32,
    y: i32,
}

impl NetworkState for Position {
    type State = Position;

    fn wf(&self) -> bool {
        true
    }

    fn spec_state(&self) -> Position {
        *self
    }

    fn valid_state(_state: Position) -> bool {
        true
    }

    fn keeps(_old: Position, _new: Position) -> bool {
        true
    }

    fn from_state(state: Position) -> Position {
        state
    }

    fn update_from_state(&mut self, state: Position) {
        *self = state;
    }

    fn state(&self) -> Position {
        *self
    }
}

#[derive(Debug, Clone, Copy, PartialEq)]
struct Velocity {
    dx: i32,
}

impl NetworkState for Velocity {
    type State = i32;

    fn wf(&self) -> bool {
        true
    }

    fn spec_state(&self) -> i32 {
        self.dx
    }

    fn valid_state(_state: i32) -> bool {
        true
    }

    fn keeps(_old: Velocity, _new: Velocity) -> bool {
        true
    }

    fn from_state(state: i32) -> Velocity {
        Velocity { dx: state }
    }

    fn update_from_state(&mut self, state: i32) {
        self.dx = state;
    }

    fn state(&self) -> i32 {
        self.dx
    }
}

/// A component with a field that is not replicated.
#[derive(Debug, Clone, Copy, PartialEq)]
struct Health {
    current: u8,
    hits_seen: u32,
}

impl NetworkState for Health {
    type State = u8;

    fn wf(&self) -> bool {
        true
    }

    fn spec_state(&self) -> u8 {
        self.current
    }

    fn valid_state(_state: u8) -> bool {
        true
    }

    fn keeps(_old: Health, _new: Health) -> bool {
        true
    }

    fn from_state(state: u8) -> Health {
        Health { current: state, hits_seen: 0 }
    }

    fn update_from_state(&mut self, state: u8) {
        if state < self.current {
            self.hits_seen += 1;
        }
        self.current = state;
    }

    fn state(&self) -> u8 {
        self.current
    }
}

type GameWorld = World<Position, Velocity, Health, AnimationController>;
type Frame = ServerFrame<Position, Velocity, Health, AnimationController>;

fn pos(x: i32, y: i32) -> Position {
    Position { x, y }
}

fn local_position(world: &GameWorld, mapping: &EntityMapping, server_id: EntityId) -> Option<Position> {
    let local = mapping.get(server_id)?;
    world.players().get(local).copied()
}

fn frame_with_positions(ids: Vec<u64>, positions: Vec<Option<Position>>) -> Frame {
    let entities: Vec<EntityId> = ids.into_iter().map(EntityId).collect();
    let bitmask: Vec<bool> = positions.iter().map(|p| p.is_some()).collect();
    let values: Vec<Position> = positions.into_iter().flatten().collect();
    let n = entities.len();
    ServerFrame {
        entities,
        players: NetworkComponent { bitmask, values },
        projectiles: NetworkComponent { bitmask: vec![false; n], values: vec![] },
        transforms: NetworkComponent { bitmask: vec![false; n], values: vec![] },
        animations: NetworkComponent { bitmask: vec![false; n], values: vec![] },
    }
}

#[test]
fn scenario_three_snapshots() {
    let a = EntityId(10);
    let b = EntityId(11);
    let snapshot1 = frame_with_positions(vec![10], vec![Some(pos(1, 1))]);
    let snapshot2 = frame_with_positions(vec![10, 11], vec![Some(pos(2, 1)), Some(pos(5, 5))]);
    let snapshot3 = frame_with_positions(vec![11], vec![Some(pos(5, 5))]);
    let mut world = GameWorld::new();
    let mut mapping = EntityMapping::new();

    assert!(snapshot1.is_consistent());
    snapshot1.apply_in_world(&mut world, &mut mapping).unwrap();
    let a1 = mapping.get(a).unwrap();
    assert!(world.is_alive(a1));
    assert_eq!(world.players().get(a1), Some(&pos(1, 1)));
    assert_eq!(mapping.len(), 1);

    snapshot2.apply_in_world(&mut world, &mut mapping).unwrap();
    assert_eq!(mapping.get(a), Some(a1));
    assert_eq!(world.players().get(a1), Some(&pos(2, 1)));
    let b1 = mapping.get(b).unwrap();
    assert_ne!(a1, b1);
    assert_eq!(world.players().get(b1), Some(&pos(5, 5)));
    assert_eq!(mapping.len(), 2);

    snapshot3.apply_in_world(&mut world, &mut mapping).unwrap();
    assert!(!world.is_alive(a1));
    assert_eq!(world.players().get(a1), None);
    assert_eq!(mapping.get(a), None);
    assert_eq!(mapping.get(b), Some(b1));
    assert_eq!(mapping.len(), 1);
    assert_eq!(world.entity_ids(), vec![b1]);
}

fn authoritative_world() -> (GameWorld, Vec<EntityId>) {
    let mut w = GameWorld::new();
    let e0 = w.add_entity();
    let e1 = w.add_entity();
    let e2 = w.add_entity();
    w.attach_player(e0, pos(3, 4));
    w.attach_projectile(e0, Velocity { dx: -2 });
    w.attach_transform(e1, Health { current: 7, hits_seen: 3 });
    let mut controller = AnimationEntity::Player.new_animation_controller();
    controller.change_animation(1);
    w.attach_animation(e2, controller);
    w.attach_player(e2, pos(-1, 0));
    (w, vec![e0, e1, e2])
}

#[test]
fn round_trip_into_empty_world() {
    let (server, ids) = authoritative_world();
    let frame = Frame::from_world(&server);
    let mut local = GameWorld::new();
    let mut mapping = EntityMapping::new();
    frame.apply_in_world(&mut local, &mut mapping).unwrap();

    assert_eq!(mapping.len(), 3);
    assert_eq!(local.entity_ids().len(), 3);
    for id in ids {
        let l = mapping.get(id).unwrap();
        assert!(local.is_alive(l));
        assert_eq!(server.players().get(id), local.players().get(l));
        assert_eq!(server.projectiles().get(id), local.projectiles().get(l));
        assert_eq!(
            server.transforms().get(id).map(|h| h.state()),
            local.transforms().get(l).map(|h| h.state())
        );
        assert_eq!(
            server.animations().get(id).map(|a| a.state()),
            local.animations().get(l).map(|a| a.state())
        );
    }
}

#[test]
fn bitmask_and_values_lengths() {
    let (server, _) = authoritative_world();
    let frame = Frame::from_world(&server);
    assert!(frame.is_consistent());
    assert_eq!(frame.entities.len(), 3);
    assert_eq!(frame.players.bitmask, vec![true, false, true]);
    assert_eq!(frame.players.values, vec![pos(3, 4), pos(-1, 0)]);
    assert_eq!(frame.projectiles.bitmask, vec![true, false, false]);
    assert_eq!(frame.projectiles.values, vec![-2]);
    assert_eq!(frame.transforms.bitmask, vec![false, true, false]);
    assert_eq!(frame.transforms.values, vec![7]);
    assert_eq!(frame.animations.bitmask, vec![false, false, true]);
    assert_eq!(frame.animations.values.len(), 1);
    assert_eq!(frame.animations.values[0].current_animation, 1);
}

#[test]
fn empty_component_still_covers_entity_list() {
    let mut w = GameWorld::new();
    let e = w.add_entity();
    w.attach_player(e, pos(0, 0));
    let frame = Frame::from_world(&w);
    assert_eq!(frame.transforms.bitmask, vec![false]);
    assert!(frame.transforms.values.is_empty());
    assert!(frame.is_consistent());
}

#[test]
fn deletion_after_absence() {
    let mut server = GameWorld::new();
    let e0 = server.add_entity();
    let e1 = server.add_entity();
    server.attach_player(e0, pos(1, 2));
    server.attach_player(e1, pos(3, 4));
    let n = Frame::from_world(&server);
    server.delete_entity(e0);
    let n1 = Frame::from_world(&server);

    let mut local = GameWorld::new();
    let mut mapping = EntityMapping::new();
    n.apply_in_world(&mut local, &mut mapping).unwrap();
    let l0 = mapping.get(e0).unwrap();
    n1.apply_in_world(&mut local, &mut mapping).unwrap();
    assert!(!local.is_alive(l0));
    assert_eq!(mapping.get(e0), None);
    assert_eq!(local.players().get(l0), None);
    assert_eq!(local_position(&local, &mapping, e1), Some(pos(3, 4)));
}

#[test]
fn applying_twice_changes_nothing() {
    let (server, ids) = authoritative_world();
    let frame = Frame::from_world(&server);
    let mut local = GameWorld::new();
    let mut mapping = EntityMapping::new();
    frame.apply_in_world(&mut local, &mut mapping).unwrap();
    let mut pairs_once = mapping.pairs();
    pairs_once.sort_by_key(|p| p.0 .0);
    let alive_once = local.entity_ids();
    frame.apply_in_world(&mut local, &mut mapping).unwrap();
    let mut pairs_twice = mapping.pairs();
    pairs_twice.sort_by_key(|p| p.0 .0);
    assert_eq!(pairs_twice, pairs_once);
    assert_eq!(local.entity_ids(), alive_once);
    for id in ids {
        let l = mapping.get(id).unwrap();
        assert_eq!(server.players().get(id), local.players().get(l));
        assert_eq!(
            server.transforms().get(id).map(|h| h.state()),
            local.transforms().get(l).map(|h| h.state())
        );
    }
}

#[test]
fn update_keeps_fields_that_are_not_replicated() {
    let mut server = GameWorld::new();
    let e = server.add_entity();
    server.attach_transform(e, Health { current: 10, hits_seen: 0 });
    let mut local = GameWorld::new();
    let mut mapping = EntityMapping::new();
    Frame::from_world(&server).apply_in_world(&mut local, &mut mapping).unwrap();
    server.attach_transform(e, Health { current: 6, hits_seen: 0 });
    Frame::from_world(&server).apply_in_world(&mut local, &mut mapping).unwrap();
    let l = mapping.get(e).unwrap();
    assert_eq!(local.transforms().get(l), Some(&Health { current: 6, hits_seen: 1 }));
}

#[test]
fn newer_snapshot_first_then_older_dropped() {
    let older = frame_with_positions(vec![1, 2], vec![Some(pos(0, 0)), Some(pos(9, 9))]);
    let newer = frame_with_positions(vec![2, 3], vec![Some(pos(8, 8)), Some(pos(7, 7))]);
    let mut local = GameWorld::new();
    let mut mapping = EntityMapping::new();
    newer.apply_in_world(&mut local, &mut mapping).unwrap();
    drop(older);
    assert_eq!(mapping.len(), 2);
    assert_eq!(mapping.get(EntityId(1)), None);
    assert_eq!(local_position(&local, &mapping, EntityId(2)), Some(pos(8, 8)));
    assert_eq!(local_position(&local, &mapping, EntityId(3)), Some(pos(7, 7)));
    assert_eq!(local.entity_ids().len(), 2);
}

#[test]
fn component_added_to_tracked_entity() {
    let mut local = GameWorld::new();
    let mut mapping = EntityMapping::new();
    frame_with_positions(vec![4], vec![None]).apply_in_world(&mut local, &mut mapping).unwrap();
    assert_eq!(mapping.len(), 0);
    let mut f = frame_with_positions(vec![4], vec![Some(pos(1, 1))]);
    f.projectiles = NetworkComponent { bitmask: vec![true], values: vec![5] };
    f.apply_in_world(&mut local, &mut mapping).unwrap();
    let l = mapping.get(EntityId(4)).unwrap();
    let mut g = frame_with_positions(vec![4], vec![Some(pos(1, 1))]);
    g.transforms = NetworkComponent { bitmask: vec![true], values: vec![3] };
    g.apply_in_world(&mut local, &mut mapping).unwrap();
    assert_eq!(mapping.get(EntityId(4)), Some(l));
    assert_eq!(local.entity_ids(), vec![l]);
    assert_eq!(local.transforms().get(l), Some(&Health { current: 3, hits_seen: 0 }));
    assert_eq!(local.projectiles().get(l), Some(&Velocity { dx: 5 }));
}

#[test]
fn inconsistent_frames_are_detected() {
    let mut f = frame_with_positions(vec![1, 2], vec![Some(pos(0, 0)), None]);
    assert!(f.is_consistent());
    f.players.values.push(pos(1, 1));
    assert!(!f.is_consistent());
    let mut g = frame_with_positions(vec![1, 2], vec![None, None]);
    g.transforms.bitmask.pop();
    assert!(!g.is_consistent());
    let h = frame_with_positions(vec![1, 1], vec![None, None]);
    assert!(!h.is_consistent());
}

#[test]
fn inconsistent_frame_changes_nothing() {
    let mut local = GameWorld::new();
    let mut mapping = EntityMapping::new();
    frame_with_positions(vec![1], vec![Some(pos(1, 1))]).apply_in_world(&mut local, &mut mapping).unwrap();
    let before = local.entity_ids();
    let mut bad = frame_with_positions(vec![2], vec![Some(pos(5, 5))]);
    bad.players.values.push(pos(6, 6));
    assert_eq!(bad.apply_in_world(&mut local, &mut mapping), Err(FrameError::Inconsistent));
    assert_eq!(local.entity_ids(), before);
    assert_eq!(mapping.len(), 1);
    assert_eq!(mapping.get(EntityId(2)), None);
    assert_eq!(local_position(&local, &mapping, EntityId(1)), Some(pos(1, 1)));
}

#[test]
fn update_keeps_animation_clock() {
    let mut c = AnimationEntity::Player.new_animation_controller();
    let before = c.last_updated;
    let state = AnimationState { animation_entity: AnimationEntity::Player, frame: 1, current_animation: 0 };
    c.update_from_state(state);
    assert_eq!(c.last_updated, before);
    assert_eq!(c.frame, 1);
    assert_eq!(c.animations.len(), 2);
}

#[test]
fn animation_state_round_trip() {
    let state = AnimationState { animation_entity: AnimationEntity::Player, frame: 1, current_animation: 1 };
    let c = AnimationController::from_state(state);
    assert_eq!(c.state(), state);
    assert_eq!(c.animations.len(), 2);
    assert_eq!(c.animations[0].name, "idle");
    assert_eq!(c.animations[1].name, "run");
    assert_eq!(c.animations[1].speed_nanos(), 76_000_000);
    let mut d = AnimationEntity::Player.new_animation_controller();
    d.update_from_state(state);
    assert_eq!(d.current_animation, 1);
    assert_eq!(d.frame, 1);
}

#[test]
fn apply_all_skips_inconsistent() {
    let first = frame_with_positions(vec![1], vec![Some(pos(1, 1))]);
    let mut bad = frame_with_positions(vec![1, 2], vec![Some(pos(2, 2)), None]);
    bad.players.values.clear();
    let last = frame_with_positions(vec![1, 3], vec![Some(pos(4, 4)), Some(pos(3, 3))]);
    let mut local = GameWorld::new();
    let mut mapping = EntityMapping::new();
    let applied = Frame::apply_all(&vec![first, bad, last], &mut local, &mut mapping);
    assert_eq!(applied, 2);
    assert_eq!(mapping.len(), 2);
    assert_eq!(local_position(&local, &mapping, EntityId(1)), Some(pos(4, 4)));
    assert_eq!(local_position(&local, &mapping, EntityId(3)), Some(pos(3, 3)));
    assert_eq!(mapping.get(EntityId(2)), None);
}
