use vstd::prelude::*;
use crate::position::Direction;

verus! {

/// The broad classes of ghost the repellent can target.
#[derive(Clone, Copy, Debug, PartialEq, Eq, Structural)]
pub enum GhostType {
    Spirit,
    Wraith,
    Shade,
    Poltergeist,
}

/// How many update ticks a thrown repellent cloud lives.
pub const REPELLENT_MAX_LIFE: i32 = 1500;

/// How many update ticks a filled flask can spray.
pub const FLASK_MAX_QTY: i32 = 400;

/// The craftable repellent flask: what it is filled against, whether it is
/// spraying, and how much liquid remains.
#[derive(Clone, Copy, Debug, Default, PartialEq, Eq, Structural)]
pub struct RepellentFlask {
    pub liquid_content: Option<GhostType>,
    pub active: bool,
    pub qty: i32,
}

impl RepellentFlask {
    /// Starts spraying; an empty flask stays idle.
    pub fn set_trigger(&mut self)
        ensures
            final(self).liquid_content == old(self).liquid_content,
            final(self).qty == old(self).qty,
            final(self).active == (old(self).active || old(self).liquid_content.is_some()),
    {
        if self.liquid_content.is_none() {
            return ;
        }
        self.active = true;
    }

    /// A flask already filled, idle and full against this ghost type need
    /// not be refilled.
    pub fn can_fill_liquid(&self, ghost_type: GhostType) -> (r: bool)
        ensures
            r == !(self.liquid_content == Some(ghost_type) && !self.active && self.qty
                == FLASK_MAX_QTY),
    {
        !(matches!(self.liquid_content, Some(g) if g == ghost_type) && !self.active && self.qty
            == FLASK_MAX_QTY)
    }

    /// Fills the flask against the given ghost type.
    pub fn do_fill_liquid(&mut self, ghost_type: GhostType)
        ensures
            final(self).liquid_content == Some(ghost_type),
            !final(self).active,
            final(self).qty == FLASK_MAX_QTY,
    {
        self.liquid_content = Some(ghost_type);
        self.active = false;
        self.qty = FLASK_MAX_QTY;
    }
}

/// One airborne repellent cloud: the ghost class it targets, its remaining
/// life in ticks, and its drift.
#[derive(Clone, Copy, Debug, PartialEq, Eq, Structural)]
pub struct Repellent {
    pub class: GhostType,
    pub life: i32,
    pub dir: Direction,
}

impl Repellent {
    /// A fresh cloud targeting the given class, at full life, drifting
    /// nowhere yet.
    pub fn new(class: GhostType) -> (r: Self)
        ensures
            r.class == class,
            r.life == REPELLENT_MAX_LIFE,
            r.dir == (Direction { dx: 0, dy: 0, dz: 0 }),
    {
        Self { class, life: REPELLENT_MAX_LIFE, dir: Direction::zero() }
    }

    /// The remaining fraction of the cloud's life, in milli-units.
    pub fn life_factor(&self) -> (r: i64)
        requires
            0 <= self.life <= REPELLENT_MAX_LIFE,
        ensures
            r == (self.life as int) * (crate::MILLI as int) / (REPELLENT_MAX_LIFE as int),
            0 <= r <= crate::MILLI,
    {
        proof {
            vstd::arithmetic::div_mod::lemma_div_pos_is_pos((self.life as int) * 1000, 1500);
            vstd::arithmetic::div_mod::lemma_div_is_ordered(
                (self.life as int) * 1000,
                1500000,
                1500,
            );
            assert(1500000int == 1500int * 1000);
            vstd::arithmetic::div_mod::lemma_div_multiples_vanish(1000, 1500);
        }
        (self.life as i64) * 1000 / 1500
    }
}

} // verus!
