use vstd::prelude::*;
use crate::boardposition::BoardPosition;

verus! {

/// Continuous world position in fixed-point milli-units; `global_z` is the
/// render-order tiebreak and takes no part in grid arithmetic.
#[derive(Clone, Copy, Debug, Default, PartialEq, Eq, Structural)]
pub struct Position {
    pub x: i64,
    pub y: i64,
    pub z: i64,
    pub global_z: i64,
}

/// Floor of `v / MILLI`: the greatest whole tile coordinate at or below
/// the continuous coordinate `v`.
pub open spec fn floor_milli(v: int) -> int {
    v / (crate::MILLI as int)
}

/// Exec floor division by `MILLI`, matching `floor_milli` (which rounds
/// toward negative infinity, unlike `/` on `i64`).
pub fn floor_div_milli(v: i64) -> (r: i64)
    requires
        -1000000000000 <= v <= 1000000000000,
    ensures
        r == floor_milli(v as int),
{
    if v >= 0 {
        v / 1000
    } else {
        let q: i64 = (-v) / 1000;
        let rem: i64 = (-v) % 1000;
        let r: i64 = if rem == 0 {
            -q
        } else {
            -q - 1
        };
        proof {
            vstd::arithmetic::div_mod::lemma_fundamental_div_mod(-(v as int), 1000);
            vstd::arithmetic::div_mod::lemma_fundamental_div_mod_converse(
                v as int,
                1000,
                r as int,
                if rem == 0 { 0 } else { (1000 - rem) as int },
            );
        }
        r
    }
}

impl Position {
    /// The tile containing this position: both axes floor to the tile grid.
    pub fn to_board_position(&self) -> (r: BoardPosition)
        requires
            -1000000000000 <= self.x <= 1000000000000,
            -1000000000000 <= self.y <= 1000000000000,
            -1000000000000 <= self.z <= 1000000000000,
        ensures
            r.x == floor_milli(self.x as int),
            r.y == floor_milli(self.y as int),
            r.z == floor_milli(self.z as int),
    {
        BoardPosition {
            x: floor_div_milli(self.x),
            y: floor_div_milli(self.y),
            z: floor_div_milli(self.z),
        }
    }
}

/// Continuous movement delta in fixed-point milli-units.
#[derive(Clone, Copy, Debug, Default, PartialEq, Eq, Structural)]
pub struct Direction {
    pub dx: i64,
    pub dy: i64,
    pub dz: i64,
}

impl Direction {
    /// The zero delta.
    pub fn zero() -> (r: Direction)
        ensures
            r.dx == 0 && r.dy == 0 && r.dz == 0,
    {
        Direction { dx: 0, dy: 0, dz: 0 }
    }
}

} // verus!
