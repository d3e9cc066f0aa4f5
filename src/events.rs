use vstd::prelude::*;
use crate::level::{Coord, Level};

verus! {

/// The player died, with the message to show.
#[derive(Debug, Clone, PartialEq, Eq, Hash)]
pub struct DeathEvent(pub String);

/// Sound cues.
#[derive(Debug, Clone, Copy, PartialEq, Eq, Hash, Structural)]
pub enum Sound {
    PlayerDie,
    HitWall,
    Explosion,
}

/// A sound to play.
#[derive(Debug, Clone, Copy, PartialEq, Eq, Hash, Structural)]
pub struct SoundEvent {
    pub sound: Sound,
}

/// The player asks to move to `pos`.
#[derive(Debug, Clone, Copy, PartialEq, Eq, Hash, Structural)]
pub struct MovementEvent {
    pub pos: Coord,
}

/// Switch to the level at this index.
#[derive(Debug, Clone, Copy, PartialEq, Eq, Hash, Structural)]
pub struct LevelEvent(pub usize);

/// Sprite frames of an explosion, in order.
pub open spec fn explosion_frames() -> Seq<usize> {
    seq![24, 25, 30, 31]
}

/// The sprite of the `index`-th step of an explosion, or `None` once it is over.
pub fn explosion_frame(index: usize) -> (r: Option<usize>)
    ensures
        index < 4 ==> r == Some(explosion_frames()[index as int]),
        index >= 4 ==> r is None,
{
    match index {
        0 => Some(24),
        1 => Some(25),
        2 => Some(30),
        3 => Some(31),
        _ => None,
    }
}

/// The level index after the keys for the next and the previous level:
/// next wins, and the index does not go below zero.
pub fn select_level(current: usize, next: bool, previous: bool) -> (r: usize)
    requires
        next ==> current < usize::MAX,
    ensures
        next ==> r == current + 1,
        !next && previous && current >= 1 ==> r == current - 1,
        !next && !(previous && current >= 1) ==> r == current,
{
    if next {
        current + 1
    } else if previous && current >= 1 {
        current - 1
    } else {
        current
    }
}

/// Clamps `v + d` to `0..=hi`.
pub open spec fn clamp_to(v: int, d: int, hi: int) -> int {
    if v + d < 0 {
        0
    } else if v + d > hi {
        hi
    } else {
        v + d
    }
}

impl Level {
    /// The destination for a step of `dx` columns and `dy` rows from the
    /// player, clamped to the grid, or `None` if the player would not move.
    pub fn input_target(&self, dx: isize, dy: isize) -> (r: Option<MovementEvent>)
        requires
            self.wf(),
        ensures
            ({
                let row = clamp_to(self.player_pos.row(), dy as int, self.rows() - 1);
                let col = clamp_to(self.player_pos.col(), dx as int, self.cols() - 1);
                if row == self.player_pos.row() && col == self.player_pos.col() {
                    r is None
                } else {
                    r == Some(MovementEvent { pos: Coord(row as usize, col as usize) })
                }
            }),
    {
        let (height, width) = self.dim();
        let p = self.player_pos;
        let row = clamp_step(p.0, dy, height - 1);
        let col = clamp_step(p.1, dx, width - 1);
        if row == p.0 && col == p.1 {
            None
        } else {
            Some(MovementEvent { pos: Coord::new((row, col)) })
        }
    }
}

fn clamp_step(v: usize, d: isize, hi: usize) -> (r: usize)
    requires
        v <= hi,
    ensures
        r == clamp_to(v as int, d as int, hi as int),
{
    let t: i128 = v as i128 + d as i128;
    if t < 0 {
        0
    } else if t > hi as i128 {
        hi
    } else {
        t as usize
    }
}

} // verus!
