use vstd::prelude::*;

verus! {

/// The input keys the control scheme can bind; a plain value standing for
/// the host engine's key codes, with `Unlabeled` for an unbound action.
#[derive(Clone, Copy, Debug, PartialEq, Eq, Structural)]
pub enum KeyCode {
    W,
    A,
    S,
    D,
    E,
    R,
    T,
    Q,
    G,
    F,
    I,
    J,
    K,
    L,
    O,
    Tab,
    Unlabeled,
}

/// The key bindings of one player: movement, interaction, and inventory
/// actions.
#[derive(Clone, Copy, Debug, PartialEq, Eq, Structural)]
pub struct ControlKeys {
    pub up: KeyCode,
    pub down: KeyCode,
    pub left: KeyCode,
    pub right: KeyCode,
    /// Interaction key (open doors, switches, and the like).
    pub activate: KeyCode,
    /// Grab things from the ground.
    pub grab: KeyCode,
    /// Drop things to the ground.
    pub drop: KeyCode,
    /// Trigger the left-hand item.
    pub torch: KeyCode,
    /// Trigger the right-hand item.
    pub trigger: KeyCode,
    /// Cycle through the inventory.
    pub cycle: KeyCode,
    /// Swap the left-hand item with the right-hand one.
    pub swap: KeyCode,
}

impl ControlKeys {
    /// The first player's bindings, around the WASD cluster.
    pub open spec fn wasd_spec() -> ControlKeys {
        ControlKeys {
            up: KeyCode::W,
            down: KeyCode::S,
            left: KeyCode::A,
            right: KeyCode::D,
            activate: KeyCode::E,
            trigger: KeyCode::R,
            torch: KeyCode::T,
            cycle: KeyCode::Q,
            swap: KeyCode::Tab,
            drop: KeyCode::G,
            grab: KeyCode::F,
        }
    }

    /// The second player's bindings, around the IJKL cluster.
    pub open spec fn ijkl_spec() -> ControlKeys {
        ControlKeys {
            up: KeyCode::I,
            down: KeyCode::K,
            left: KeyCode::J,
            right: KeyCode::L,
            activate: KeyCode::O,
            torch: KeyCode::T,
            cycle: KeyCode::Unlabeled,
            swap: KeyCode::Unlabeled,
            grab: KeyCode::Unlabeled,
            drop: KeyCode::Unlabeled,
            trigger: KeyCode::Unlabeled,
        }
    }

    /// The empty scheme: every action unbound.
    pub open spec fn none_spec() -> ControlKeys {
        ControlKeys {
            up: KeyCode::Unlabeled,
            down: KeyCode::Unlabeled,
            left: KeyCode::Unlabeled,
            right: KeyCode::Unlabeled,
            activate: KeyCode::Unlabeled,
            torch: KeyCode::Unlabeled,
            cycle: KeyCode::Unlabeled,
            swap: KeyCode::Unlabeled,
            grab: KeyCode::Unlabeled,
            drop: KeyCode::Unlabeled,
            trigger: KeyCode::Unlabeled,
        }
    }

    /// The first player's bindings, around the WASD cluster.
    pub fn wasd() -> (r: ControlKeys)
        ensures
            r == ControlKeys::wasd_spec(),
    {
        ControlKeys {
            up: KeyCode::W,
            down: KeyCode::S,
            left: KeyCode::A,
            right: KeyCode::D,
            activate: KeyCode::E,
            trigger: KeyCode::R,
            torch: KeyCode::T,
            cycle: KeyCode::Q,
            swap: KeyCode::Tab,
            drop: KeyCode::G,
            grab: KeyCode::F,
        }
    }

    /// The second player's bindings, around the IJKL cluster.
    pub fn ijkl() -> (r: ControlKeys)
        ensures
            r == ControlKeys::ijkl_spec(),
    {
        ControlKeys {
            up: KeyCode::I,
            down: KeyCode::K,
            left: KeyCode::J,
            right: KeyCode::L,
            activate: KeyCode::O,
            torch: KeyCode::T,
            cycle: KeyCode::Unlabeled,
            swap: KeyCode::Unlabeled,
            grab: KeyCode::Unlabeled,
            drop: KeyCode::Unlabeled,
            trigger: KeyCode::Unlabeled,
        }
    }

    /// The empty scheme: every action unbound.
    pub fn none() -> (r: ControlKeys)
        ensures
            r == ControlKeys::none_spec(),
    {
        ControlKeys {
            up: KeyCode::Unlabeled,
            down: KeyCode::Unlabeled,
            left: KeyCode::Unlabeled,
            right: KeyCode::Unlabeled,
            activate: KeyCode::Unlabeled,
            torch: KeyCode::Unlabeled,
            cycle: KeyCode::Unlabeled,
            swap: KeyCode::Unlabeled,
            grab: KeyCode::Unlabeled,
            drop: KeyCode::Unlabeled,
            trigger: KeyCode::Unlabeled,
        }
    }
}

/// A player entity: its number and its key bindings.
#[derive(Clone, Copy, Debug, PartialEq, Eq, Structural)]
pub struct PlayerSprite {
    pub id: usize,
    pub controls: ControlKeys,
}

impl PlayerSprite {
    /// A player with the default bindings for its number.
    pub fn new(id: usize) -> (r: Self)
        ensures
            r.id == id,
            r.controls == PlayerSprite::default_controls_spec(id),
    {
        Self { id, controls: Self::default_controls(id) }
    }

    /// The default bindings for a player number: WASD for the first,
    /// IJKL for the second, nothing for the rest.
    pub open spec fn default_controls_spec(id: usize) -> ControlKeys {
        if id == 1 {
            ControlKeys::wasd_spec()
        } else if id == 2 {
            ControlKeys::ijkl_spec()
        } else {
            ControlKeys::none_spec()
        }
    }

    /// The default bindings for a player number.
    pub fn default_controls(id: usize) -> (r: ControlKeys)
        ensures
            r == PlayerSprite::default_controls_spec(id),
    {
        match id {
            1 => ControlKeys::wasd(),
            2 => ControlKeys::ijkl(),
            _ => ControlKeys::none(),
        }
    }
}

/// Raised when the room layout changed and dependent state must follow.
#[derive(Clone, Copy, Debug, Default, PartialEq, Eq, Structural)]
pub struct RoomChangedEvent;

/// Basic game options: which player the camera and lighting follow.
#[derive(Clone, Copy, Debug, PartialEq, Eq, Structural)]
pub struct GameConfig {
    pub player_id: usize,
}

impl Default for GameConfig {
    /// The camera follows the first player by default.
    fn default() -> (r: Self)
        ensures
            r.player_id == 1,
    {
        Self { player_id: 1 }
    }
}

/// The class of a looping background sound.
#[derive(Clone, Copy, Debug, PartialEq, Eq, Structural)]
pub enum SoundType {
    BackgroundHouse,
    BackgroundStreet,
}

/// A playing game sound and its class.
#[derive(Clone, Copy, Debug, PartialEq, Eq, Structural)]
pub struct GameSound {
    pub class: SoundType,
}

/// Asks the level loader to bring up the given map.
#[derive(Clone, Debug, PartialEq, Eq)]
pub struct LoadLevelEvent {
    pub map_filepath: String,
}

/// Marker for the ghost's visual breach effect.
#[derive(Clone, Copy, Debug, Default, PartialEq, Eq, Structural)]
pub struct GhostBreach;

/// The eight facing directions of a character sprite sheet.
#[derive(Clone, Copy, Debug, PartialEq, Eq, Structural)]
pub enum CharacterAnimationDirection {
    NN,
    NW,
    WW,
    SW,
    SS,
    SE,
    EE,
    NE,
}

impl CharacterAnimationDirection {
    /// The sprite-sheet column offset of this facing.
    pub fn to_delta_idx(self) -> (r: usize)
        ensures
            r == (match self {
                CharacterAnimationDirection::NN => 0usize,
                CharacterAnimationDirection::NW => 1usize,
                CharacterAnimationDirection::WW => 2usize,
                CharacterAnimationDirection::SW => 3usize,
                CharacterAnimationDirection::SS => 16usize,
                CharacterAnimationDirection::SE => 17usize,
                CharacterAnimationDirection::EE => 18usize,
                CharacterAnimationDirection::NE => 19usize,
            }),
    {
        match self {
            Self::NN => 0,
            Self::NW => 1,
            Self::WW => 2,
            Self::SW => 3,
            Self::SS => 16,
            Self::SE => 17,
            Self::EE => 18,
            Self::NE => 19,
        }
    }
}

/// Whether a character stands still or walks.
#[derive(Clone, Copy, Debug, PartialEq, Eq, Structural)]
pub enum CharacterAnimationState {
    Standing,
    Walking,
}

impl CharacterAnimationState {
    /// The sprite-sheet row offset of this state.
    pub fn to_delta_idx(self) -> (r: usize)
        ensures
            r == (match self {
                CharacterAnimationState::Standing => 32usize,
                CharacterAnimationState::Walking => 0usize,
            }),
    {
        match self {
            Self::Standing => 32,
            Self::Walking => 0,
        }
    }
}

/// A character animation: its movement state and its facing.
#[derive(Clone, Copy, Debug, PartialEq, Eq, Structural)]
pub struct CharacterAnimation {
    pub state: CharacterAnimationState,
    pub dir: CharacterAnimationDirection,
}

impl CharacterAnimation {
    /// The four sprite-sheet frames of this animation, in play order.
    pub fn to_vec(self) -> (r: Vec<usize>)
        ensures
            r@.len() == 4,
            ({
                let i = (match self.state {
                    CharacterAnimationState::Standing => 32int,
                    CharacterAnimationState::Walking => 0int,
                }) + (match self.dir {
                    CharacterAnimationDirection::NN => 0int,
                    CharacterAnimationDirection::NW => 1int,
                    CharacterAnimationDirection::WW => 2int,
                    CharacterAnimationDirection::SW => 3int,
                    CharacterAnimationDirection::SS => 16int,
                    CharacterAnimationDirection::SE => 17int,
                    CharacterAnimationDirection::EE => 18int,
                    CharacterAnimationDirection::NE => 19int,
                });
                r@[0] == i && r@[1] == i + 4 && r@[2] == i + 8 && r@[3] == i + 12
            }),
    {
        let i: usize = self.state.to_delta_idx() + self.dir.to_delta_idx();
        let mut r: Vec<usize> = Vec::new();
        r.push(i);
        r.push(i + 4);
        r.push(i + 8);
        r.push(i + 12);
        r
    }
}

/// A repeating frame timer in whole microseconds.
#[derive(Clone, Copy, Debug, PartialEq, Eq, Structural)]
pub struct Timer {
    pub duration_micros: u64,
    pub elapsed_micros: u64,
}

impl Timer {
    /// The period is positive and modest, and the elapsed time stays
    /// inside it.
    pub open spec fn wf(self) -> bool {
        1 <= self.duration_micros <= 1000000000000000 && self.elapsed_micros
            < self.duration_micros
    }

    /// A fresh repeating timer with the given period.
    pub fn new(duration_micros: u64) -> (r: Timer)
        requires
            1 <= duration_micros <= 1000000000000000,
        ensures
            r.wf(),
            r.duration_micros == duration_micros,
            r.elapsed_micros == 0,
    {
        Timer { duration_micros, elapsed_micros: 0 }
    }
}

/// Drives a sprite through its animation frames: a repeating timer, the
/// frame list, and the index of the frame now showing.
#[derive(Clone, Debug, PartialEq, Eq)]
pub struct AnimationTimer {
    pub timer: Timer,
    pub frames: Vec<usize>,
    pub idx: usize,
}

impl AnimationTimer {
    /// The timer is sound and the cursor stays inside the frame list.
    pub open spec fn wf(self) -> bool {
        self.timer.wf() && self.idx < self.frames@.len()
    }

    /// An animation over the given frames, starting at the first.
    pub fn from_range(timer: Timer, frames: Vec<usize>) -> (r: AnimationTimer)
        requires
            timer.wf(),
            frames@.len() >= 1,
        ensures
            r.wf(),
            r.timer == timer,
            r.frames == frames,
            r.idx == 0,
    {
        AnimationTimer { timer, frames, idx: 0 }
    }

    /// Replaces the frame list, keeping the cursor safe.
    pub fn set_range(&mut self, frames: Vec<usize>)
        requires
            old(self).wf(),
            frames@.len() >= 1,
        ensures
            final(self).wf(),
            final(self).frames == frames,
            final(self).timer == old(self).timer,
            final(self).idx == if old(self).idx < frames@.len() {
                old(self).idx as int
            } else {
                0
            },
    {
        if self.idx >= frames.len() {
            self.idx = 0;
        }
        self.frames = frames;
    }

    /// Advances the timer by `delta_micros`; when the period elapses, the
    /// animation steps to the next frame (wrapping) and returns it, else
    /// nothing happens.
    pub fn tick(&mut self, delta_micros: u64) -> (r: Option<usize>)
        requires
            old(self).wf(),
            delta_micros <= 1000000000000,
        ensures
            final(self).wf(),
            final(self).frames == old(self).frames,
            final(self).timer.duration_micros == old(self).timer.duration_micros,
            ({
                let total = old(self).timer.elapsed_micros + delta_micros;
                if total < old(self).timer.duration_micros {
                    r.is_none() && final(self).idx == old(self).idx
                        && final(self).timer.elapsed_micros == total
                } else {
                    r == Some(old(self).frames@[final(self).idx as int]) && final(self).idx == (
                    old(self).idx + 1) % (old(self).frames@.len() as int)
                        && final(self).timer.elapsed_micros == total % (
                    old(self).timer.duration_micros as int)
                }
            }),
    {
        let total: u64 = self.timer.elapsed_micros + delta_micros;
        if total < self.timer.duration_micros {
            self.timer.elapsed_micros = total;
            None
        } else {
            self.timer.elapsed_micros = total % self.timer.duration_micros;
            let n: usize = self.frames.len();
            self.idx = (self.idx + 1) % n;
            Some(self.frames[self.idx])
        }
    }
}

} // verus!
