use vstd::prelude::*;
use std::time::Instant;
use crate::network::NetworkState;

verus! {

/// One animation of a sprite sheet: a row of `frames` frames played at a
/// fixed rate.
#[derive(Clone, Debug)]
pub struct Animation {
    pub name: String,
    pub row: u32,
    pub frames: u32,
    pub speed_nanos: u128,
}

impl Animation {
    /// Time each frame stays on screen, in nanoseconds.
    pub closed spec fn spec_speed_nanos(self) -> u128 {
        self.speed_nanos
    }

    /// An animation played at `fps` frames per second, each frame lasting
    /// `1000 / fps` whole milliseconds.
    pub fn new(name: String, row: u32, frames: u32, fps: u64) -> (r: Animation)
        requires
            fps > 0,
        ensures
            r.name == name,
            r.row == row,
            r.frames == frames,
            r.spec_speed_nanos() == (1000int / fps as int) * 1_000_000,
    {
        let millis: u64 = 1000 / fps;
        let speed_nanos = millis as u128 * 1_000_000;
        Animation { name, row, frames, speed_nanos }
    }

    pub fn speed_nanos(&self) -> (r: u128)
        ensures
            r == self.spec_speed_nanos(),
    {
        self.speed_nanos
    }
}

/// The kinds of animated entities; each has a fixed set of animations.
#[derive(Debug, Clone, Copy, PartialEq, Eq, Structural)]
pub enum AnimationEntity {
    Player,
}

/// Number of animations in the set of `e`.
pub open spec fn animation_count(e: AnimationEntity) -> nat {
    match e {
        AnimationEntity::Player => 2,
    }
}

/// The replicated part of an animation controller.
#[derive(Debug, Clone, Copy, PartialEq, Eq, Structural)]
pub struct AnimationState {
    pub animation_entity: AnimationEntity,
    pub frame: u8,
    pub current_animation: u8,
}

/// Plays the animations of one entity: which one is current, at which frame,
/// and when the frame last advanced.
#[derive(Debug, Clone)]
pub struct AnimationController {
    pub animation_entity: AnimationEntity,
    pub animations: Vec<Animation>,
    pub frame: u32,
    pub current_animation: usize,
    pub last_updated: Instant,
}

/// `new` is `old` switched to animation `i` by `change_animation`.
pub open spec fn switched_to(old: AnimationController, new: AnimationController, i: int) -> bool {
    &&& new.animation_entity == old.animation_entity
    &&& new.animations == old.animations
    &&& if 0 <= i < old.animations@.len() && i != old.current_animation {
        new.current_animation == i && new.frame == 0
    } else {
        new == old
    }
}

impl AnimationEntity {
    /// A controller holding this entity's animation set ("idle" then "run",
    /// two frames each at 13 frames per second), at frame 0 of the first.
    pub fn new_animation_controller(self) -> (r: AnimationController)
        ensures
            r.wf(),
            r.animation_entity == self,
            r.frame == 0,
            r.current_animation == 0,
            r.animations@.len() == 2,
            r.animations@[0].name@ == seq!['i', 'd', 'l', 'e'],
            r.animations@[1].name@ == seq!['r', 'u', 'n'],
            forall|i: int| 0 <= i < 2 ==> (#[trigger] r.animations@[i]).frames == 2 && r.animations@[i].row == 0
                && r.animations@[i].spec_speed_nanos() == 76_000_000,
    {
        match self {
            AnimationEntity::Player => {
                let mut animation_controller = AnimationController::new(self);
                proof {
                    reveal_strlit("idle");
                    reveal_strlit("run");
                }
                let idle = Animation::new("idle".to_owned(), 0, 2, 13);
                let run = Animation::new("run".to_owned(), 0, 2, 13);
                animation_controller.add_animation(idle);
                animation_controller.add_animation(run);
                animation_controller
            },
        }
    }
}

impl AnimationController {
    /// The animation set is the entity's own, the current animation exists,
    /// every animation has between 1 and 256 frames, and the frame fits the
    /// replicated state.
    pub open spec fn wf(self) -> bool {
        &&& self.animations@.len() == animation_count(self.animation_entity)
        &&& self.current_animation < self.animations@.len()
        &&& forall|i: int| 0 <= i < self.animations@.len() ==> 0 < (#[trigger] self.animations@[i]).frames <= 256
        &&& self.frame < 256
    }

    pub closed spec fn spec_last_updated(self) -> Instant {
        self.last_updated
    }

    /// A controller of `animation_entity` with no animation yet.
    pub fn new(animation_entity: AnimationEntity) -> (r: AnimationController)
        ensures
            r.animation_entity == animation_entity,
            r.animations@.len() == 0,
            r.current_animation == 0,
            r.frame == 0,
    {
        AnimationController {
            animation_entity,
            animations: Vec::new(),
            current_animation: 0,
            frame: 0,
            last_updated: Instant::now(),
        }
    }

    pub fn add_animation(&mut self, animation: Animation)
        ensures
            final(self).animations@ == old(self).animations@.push(animation),
            final(self).animation_entity == old(self).animation_entity,
            final(self).frame == old(self).frame,
            final(self).current_animation == old(self).current_animation,
            final(self).spec_last_updated() == old(self).spec_last_updated(),
    {
        self.animations.push(animation);
    }

    /// Switches to the first animation named `animation`, if there is one.
    pub fn play_animation(&mut self, animation: &str)
        ensures
            (forall|i: int| 0 <= i < old(self).animations@.len() ==> (#[trigger] old(self).animations@[i]).name@ != animation@)
                ==> *final(self) == *old(self),
            forall|i: int| 0 <= i < old(self).animations@.len() && (#[trigger] old(self).animations@[i]).name@ == animation@
                && (forall|k: int| 0 <= k < i ==> (#[trigger] old(self).animations@[k]).name@ != animation@)
                ==> switched_to(*old(self), *final(self), i),
    {
        let target = animation.to_owned();
        let mut i: usize = 0;
        while i < self.animations.len()
            invariant
                i <= self.animations@.len(),
                *self == *old(self),
                target@ == animation@,
                forall|k: int| 0 <= k < i ==> (#[trigger] self.animations@[k]).name@ != animation@,
            decreases self.animations@.len() - i,
        {
            if self.animations[i].name == target {
                self.change_animation(i);
                return;
            }
            i = i + 1;
        }
    }

    /// Switches to animation `animation` from its first frame; does nothing
    /// when it is already current or does not exist.
    pub fn change_animation(&mut self, animation: usize)
        ensures
            switched_to(*old(self), *final(self), animation as int),
    {
        if self.current_animation == animation || animation >= self.animations.len() {
            return;
        }
        self.current_animation = animation;
        self.frame = 0;
        self.last_updated = Instant::now();
    }

    /// Advances to the next frame, looping, once the current frame has been
    /// shown for longer than the animation's speed.
    pub fn update(&mut self)
        requires
            old(self).wf(),
        ensures
            final(self).wf(),
            final(self).animations == old(self).animations,
            final(self).animation_entity == old(self).animation_entity,
            final(self).current_animation == old(self).current_animation,
            final(self).frame == old(self).frame || final(self).frame == (old(self).frame + 1)
                % (old(self).animations@[old(self).current_animation as int].frames as int),
    {
        let elapsed = Instant::now().saturating_duration_since(self.last_updated);
        let now = Instant::now();
        self.advance(elapsed.as_nanos(), now);
    }

    /// The frame step of `update`, given the time since the frame last
    /// advanced and the current clock reading.
    pub fn advance(&mut self, elapsed_nanos: u128, now: Instant)
        requires
            old(self).wf(),
        ensures
            final(self).wf(),
            ({
                let a = old(self).animations@[old(self).current_animation as int];
                if elapsed_nanos > a.spec_speed_nanos() {
                    &&& final(self).frame == (old(self).frame + 1) % (a.frames as int)
                    &&& final(self).spec_last_updated() == now
                    &&& final(self).animations == old(self).animations
                    &&& final(self).animation_entity == old(self).animation_entity
                    &&& final(self).current_animation == old(self).current_animation
                } else {
                    *final(self) == *old(self)
                }
            }),
    {
        let animation = &self.animations[self.current_animation];
        if elapsed_nanos > animation.speed_nanos {
            let frames = animation.frames;
            self.frame = (self.frame + 1) % frames;
            self.last_updated = now;
        }
    }

    /// Goes back to the first frame of the current animation.
    pub fn reset(&mut self)
        ensures
            final(self).frame == 0,
            final(self).animations == old(self).animations,
            final(self).animation_entity == old(self).animation_entity,
            final(self).current_animation == old(self).current_animation,
    {
        self.frame = 0;
        self.last_updated = Instant::now();
    }
}

impl NetworkState for AnimationController {
    type State = AnimationState;

    open spec fn wf(&self) -> bool {
        AnimationController::wf(*self)
    }

    open spec fn spec_state(&self) -> AnimationState {
        AnimationState {
            animation_entity: self.animation_entity,
            frame: self.frame as u8,
            current_animation: self.current_animation as u8,
        }
    }

    open spec fn valid_state(state: AnimationState) -> bool {
        (state.current_animation as nat) < animation_count(state.animation_entity)
    }

    /// The animation set and the entity kind stay; the clock reading stays
    /// unless the current animation changed.
    open spec fn keeps(old: AnimationController, new: AnimationController) -> bool {
        &&& new.animations == old.animations
        &&& new.animation_entity == old.animation_entity
        &&& new.current_animation == old.current_animation ==> new.last_updated == old.last_updated
    }

    fn from_state(state: AnimationState) -> (r: AnimationController)
        ensures
            r.animation_entity == state.animation_entity,
            r.frame == state.frame as u32,
            r.animations@.len() == 2,
            r.animations@[0].name@ == seq!['i', 'd', 'l', 'e'],
            r.animations@[1].name@ == seq!['r', 'u', 'n'],
            forall|i: int| 0 <= i < 2 ==> (#[trigger] r.animations@[i]).frames == 2 && r.animations@[i].row == 0
                && r.animations@[i].spec_speed_nanos() == 76_000_000,
            r.current_animation == if (state.current_animation as nat) < 2 { state.current_animation as usize } else { 0 },
    {
        let mut animation_controller = state.animation_entity.new_animation_controller();
        animation_controller.change_animation(state.current_animation as usize);
        animation_controller.frame = state.frame as u32;
        animation_controller
    }

    fn update_from_state(&mut self, state: AnimationState)
        ensures
            final(self).animations == old(self).animations,
            final(self).animation_entity == old(self).animation_entity,
            final(self).frame == state.frame as u32,
            final(self).current_animation == old(self).current_animation ==> final(self).last_updated == old(self).last_updated,
    {
        self.change_animation(state.current_animation as usize);
        self.frame = state.frame as u32;
        proof {
            match (self.animation_entity, state.animation_entity) {
                (AnimationEntity::Player, AnimationEntity::Player) => {},
            }
        }
    }

    fn state(&self) -> (r: AnimationState) {
        AnimationState {
            animation_entity: self.animation_entity,
            current_animation: self.current_animation as u8,
            frame: self.frame as u8,
        }
    }
}

} // verus!
