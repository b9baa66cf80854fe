use std::time::Duration;

use netsync::animation::{Animation, AnimationController, AnimationEntity};
use netsync::channel::{channel_for, Channel, Delivery, MessageKind};
use netsync::entity::{Entities, EntityId};
use netsync::mapping::EntityMapping;
use netsync::message::{ClientAction, ClientInfo};
use netsync::timer::Timer;

#[test]
fn channel_ids_and_classes() {
    assert_eq!(Channel::Reliable.id(), 0);
    assert_eq!(Channel::ReliableCritical.id(), 1);
    assert_eq!(Channel::Unreliable.id(), 2);
    assert_eq!(Channel::Reliable.delivery(), Delivery::ReliableOrdered { resend_immediately: false });
    assert_eq!(Channel::ReliableCritical.delivery(), Delivery::ReliableOrdered { resend_immediately: true });
    assert_eq!(Channel::Unreliable.delivery(), Delivery::UnreliableUnordered);
    assert_eq!(Channel::all(), vec![Channel::Reliable, Channel::ReliableCritical, Channel::Unreliable]);
}

#[test]
fn messages_go_on_their_channels() {
    assert_eq!(channel_for(MessageKind::ServerFrame), Channel::Unreliable);
    assert_eq!(channel_for(MessageKind::PlayerInput), Channel::ReliableCritical);
    assert_eq!(channel_for(MessageKind::ClientAction), Channel::Reliable);
    assert_eq!(channel_for(MessageKind::ServerMessage), Channel::Reliable);
}

#[test]
fn lobby_ready_toggles() {
    let mut info = ClientInfo::default();
    assert!(!info.ready);
    info.handle_action(ClientAction::LobbyReady);
    assert!(info.ready);
    info.handle_action(ClientAction::LobbyReady);
    assert!(!info.ready);
}

#[test]
fn animation_speed_from_fps() {
    let a = Animation::new("walk".to_string(), 3, 4, 13);
    assert_eq!(a.speed_nanos(), 76_000_000);
    assert_eq!(a.row, 3);
    assert_eq!(a.frames, 4);
    assert_eq!(Animation::new("x".to_string(), 0, 1, 1000).speed_nanos(), 1_000_000);
    assert_eq!(Animation::new("x".to_string(), 0, 1, 3000).speed_nanos(), 0);
}

#[test]
fn player_controller_has_idle_and_run() {
    let c = AnimationEntity::Player.new_animation_controller();
    assert_eq!(c.animations.len(), 2);
    assert_eq!(c.animations[0].name, "idle");
    assert_eq!(c.animations[1].name, "run");
    assert_eq!(c.current_animation, 0);
    assert_eq!(c.frame, 0);
}

#[test]
fn change_and_play_animation() {
    let mut c = AnimationEntity::Player.new_animation_controller();
    c.frame = 1;
    c.change_animation(0);
    assert_eq!(c.frame, 1);
    c.change_animation(2);
    assert_eq!(c.current_animation, 0);
    assert_eq!(c.frame, 1);
    c.play_animation("run");
    assert_eq!(c.current_animation, 1);
    assert_eq!(c.frame, 0);
    c.frame = 1;
    c.play_animation("fly");
    assert_eq!(c.current_animation, 1);
    assert_eq!(c.frame, 1);
    c.play_animation("idle");
    assert_eq!(c.current_animation, 0);
}

#[test]
fn advance_loops_frames() {
    let mut c = AnimationEntity::Player.new_animation_controller();
    let now = std::time::Instant::now();
    c.advance(76_000_000, now);
    assert_eq!(c.frame, 0);
    c.advance(76_000_001, now);
    assert_eq!(c.frame, 1);
    c.advance(100_000_000, now);
    assert_eq!(c.frame, 0);
    c.frame = 1;
    c.reset();
    assert_eq!(c.frame, 0);
    c.update();
    assert!(c.frame < 2);
}

#[test]
fn empty_controller() {
    let c = AnimationController::new(AnimationEntity::Player);
    assert!(c.animations.is_empty());
    assert_eq!(c.current_animation, 0);
}

#[test]
fn timer_finishes_after_duration() {
    let t = Timer::new(Duration::from_millis(5));
    assert_eq!(t.duration(), Duration::from_millis(5));
    assert_eq!(t.duration_nanos(), 5_000_000);
    assert!(!t.is_finished_after(5_000_000));
    assert!(t.is_finished_after(5_000_001));
    let long = Timer::new(Duration::from_secs(3600));
    assert!(!long.is_finished());
    let mut zero = Timer::new(Duration::ZERO);
    let mut spins: u32 = 0;
    while !zero.is_finished() && spins < 1_000_000_000 {
        spins += 1;
    }
    assert!(zero.is_finished());
    zero.reset();
    assert_eq!(zero.duration_nanos(), 0);
}

#[test]
fn entities_are_never_reused() {
    let mut e = Entities::new();
    let a = e.add_entity();
    let b = e.add_entity();
    assert_ne!(a, b);
    e.delete_entity(a);
    assert!(!e.is_alive(a));
    let c = e.add_entity();
    assert_ne!(a, c);
    assert_eq!(e.ids(), vec![b, c]);
}

#[test]
fn mapping_retains_listed() {
    let mut m = EntityMapping::new();
    m.insert(EntityId(100), EntityId(0));
    m.insert(EntityId(200), EntityId(1));
    m.insert(EntityId(300), EntityId(2));
    let mut removed = m.retain_listed(&vec![EntityId(200), EntityId(7)]);
    removed.sort_by_key(|e| e.0);
    assert_eq!(removed, vec![EntityId(0), EntityId(2)]);
    assert_eq!(m.len(), 1);
    assert_eq!(m.get(EntityId(200)), Some(EntityId(1)));
    assert_eq!(m.get(EntityId(100)), None);
}

#[test]
fn lobby_starts_when_all_ready() {
    let ready = ClientInfo { ready: true };
    let waiting = ClientInfo { ready: false };
    assert!(!netsync::message::lobby_can_start(&vec![]));
    assert!(!netsync::message::lobby_can_start(&vec![ready]));
    assert!(netsync::message::lobby_can_start(&vec![ready, ready]));
    assert!(!netsync::message::lobby_can_start(&vec![ready, waiting, ready]));
}
