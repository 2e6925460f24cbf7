use vstd::prelude::*;
use crate::boardposition::BoardPosition;
use crate::fielddata::LightData;

verus! {

/// Light-related behavior of an entity occupying a tile, with intensities
/// in fixed-point milli-units.
#[derive(Clone, Copy, Debug, PartialEq, Eq)]
pub struct LightProps {
    pub emits_light: bool,
    /// Emissivity in milli-lumens; what `emmisivity_lumens()` exposed.
    pub lux: i64,
    pub color: (i64, i64, i64),
    pub see_through: bool,
    /// Multiplicative factor in milli-units; what `transmissivity_factor()` exposed.
    pub transmissivity: i64,
    pub additional: LightData,
}

/// Movement-related behavior of an entity occupying a tile.
#[derive(Clone, Copy, Debug, PartialEq, Eq, Structural)]
pub struct MovementProps {
    pub walkable: bool,
    pub player_collision: bool,
    pub ghost_collision: bool,
}

/// The static behavior flags of one entity, as handed to the board rebuild:
/// a plain snapshot, not a live entity handle.
#[derive(Clone, Copy, Debug, PartialEq, Eq)]
pub struct BehaviorProps {
    pub movement: MovementProps,
    pub light: LightProps,
    /// True for door-class entities, whose open state gates propagation.
    pub is_door: bool,
    /// For door-class entities: true when the door stands open.
    pub open: bool,
}

/// One entity of the rebuild snapshot: its tile and its behavior flags.
#[derive(Clone, Copy, Debug, PartialEq, Eq)]
pub struct EntitySnapshot {
    pub pos: BoardPosition,
    pub props: BehaviorProps,
}

/// The behavior in force at `pos`: the last snapshot entry at that tile
/// wins, as a keyed insert of each entry in order would make it.
pub open spec fn behavior_at(snap: Seq<EntitySnapshot>, pos: BoardPosition) -> Option<BehaviorProps>
    decreases snap.len(),
{
    if snap.len() == 0 {
        None
    } else if snap.last().pos == pos {
        Some(snap.last().props)
    } else {
        behavior_at(snap.drop_last(), pos)
    }
}

/// Looks up the behavior in force at `pos` under last-entry-wins semantics.
pub fn behavior_lookup(snap: &Vec<EntitySnapshot>, pos: &BoardPosition) -> (r: Option<BehaviorProps>)
    ensures
        r == behavior_at(snap@, *pos),
{
    let mut i: usize = snap.len();
    proof {
        assert(snap@.take(snap@.len() as int) =~= snap@);
    }
    while i > 0
        invariant
            0 <= i <= snap@.len(),
            behavior_at(snap@, *pos) == behavior_at(snap@.take(i as int), *pos),
        decreases i,
    {
        i = i - 1;
        let entry = snap[i];
        if entry.pos.x == pos.x && entry.pos.y == pos.y && entry.pos.z == pos.z {
            proof {
                assert(snap@.take(i as int + 1).last() == snap@[i as int]);
                assert(snap@[i as int].pos == *pos);
            }
            return Some(entry.props);
        }
        proof {
            assert(snap@.take(i as int + 1).drop_last() =~= snap@.take(i as int));
            assert(snap@.take(i as int + 1).last() == snap@[i as int]);
        }
    }
    proof {
        assert(snap@.take(0) =~= Seq::<EntitySnapshot>::empty());
    }
    None
}

} // verus!
