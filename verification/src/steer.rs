//! The steering of enemies: now and then, by chance, an enemy turns to one of
//! the four points of the compass.

use vstd::prelude::*;
use crate::entity::{entities_view, Entity, SpecEntity};
use crate::geom::{SpecVec2, Vec2};

verus! {

/// An enemy turns in one step out of this many, on average.
pub const TURN_ODDS: u32 = 20;

/// The number of directions to which an enemy may turn.
pub const COMPASS_POINTS: u32 = 4;

/// The point of the compass with the given number: west, east, south, north,
/// with x growing towards the east and y towards the north.
pub open spec fn compass(roll: u32) -> SpecVec2 {
    if roll == 0 {
        SpecVec2 { x: -1, y: 0 }
    } else if roll == 1 {
        SpecVec2 { x: 1, y: 0 }
    } else if roll == 2 {
        SpecVec2 { x: 0, y: -1 }
    } else {
        SpecVec2 { x: 0, y: 1 }
    }
}

/// The entity after a step of steering: turned to a point of the compass
/// where a turn was drawn, and as before where none was.
pub open spec fn steered(e: SpecEntity, turn: Option<u32>) -> SpecEntity {
    match turn {
        Some(roll) => SpecEntity { dir: compass(roll), ..e },
        None => e,
    }
}

/// Whether `after` is what a step of steering may make of `before`.
pub open spec fn may_follow(before: SpecEntity, after: SpecEntity) -> bool {
    after == before || exists|roll: u32|
        roll < COMPASS_POINTS && after == #[trigger] steered(before, Some(roll))
}

/// The generator of random numbers of a thread, of `rand`. Nothing of its
/// state is known here.
#[verifier::external_type_specification]
#[verifier::external_body]
pub struct ExThreadRng(rand::rngs::ThreadRng);

/// `rand::thread_rng` hands out the generator of the thread. It is seeded by
/// the system when the thread first asks for it, and panics if the system
/// has no seed to give; nothing is promised of what it will draw.
pub assume_specification[ rand::thread_rng ]() -> (rng: rand::rngs::ThreadRng);

/// Draws whether something happens that happens `numerator` times out of
/// `denominator`. This calls `gen_ratio` of `rand::Rng` on the generator.
/// Nothing is known of the outcome but what `rand` guarantees: what happens
/// every time happens, and what happens never does not. `gen_ratio` panics on
/// the ratios that are left out here. Like every draw, it may also panic
/// where the system has no seed to give, which no input brings about.
#[verifier::external_body]
fn chance(rng: &mut rand::rngs::ThreadRng, numerator: u32, denominator: u32) -> (r: bool)
    requires
        denominator > 0,
        numerator <= denominator,
    ensures
        numerator == denominator ==> r,
        numerator == 0 ==> !r,
{
    rand::Rng::gen_ratio(rng, numerator, denominator)
}

/// Draws a number below `bound`. This calls `gen_range` of `rand::Rng` on the
/// generator, with the range from zero up to, and without, `bound`. Of the
/// outcome only this is known, that it lies in the range. `gen_range` panics
/// on an empty range, which is left out here. Like every draw, it may also
/// panic where the system has no seed to give, which no input brings about.
#[verifier::external_body]
fn roll_below(rng: &mut rand::rngs::ThreadRng, bound: u32) -> (r: u32)
    requires
        bound > 0,
    ensures
        r < bound,
{
    rand::Rng::gen_range(rng, 0..bound)
}

/// Draws whether an enemy turns in this step.
pub fn turns(rng: &mut rand::rngs::ThreadRng) -> (r: bool) {
    chance(rng, 1, TURN_ODDS)
}

/// Draws the point of the compass to which an enemy turns.
pub fn compass_roll(rng: &mut rand::rngs::ThreadRng) -> (r: u32)
    ensures
        r < COMPASS_POINTS,
{
    roll_below(rng, COMPASS_POINTS)
}

impl Entity {
    /// Steers the entity by what was drawn: with a turn, it faces the point
    /// of the compass of that number; without, it goes on as it went.
    pub fn steer(&mut self, turn: Option<u32>)
        requires
            turn matches Some(roll) ==> roll < COMPASS_POINTS,
        ensures
            final(self)@ == steered(old(self)@, turn),
    {
        match turn {
            Some(0) => {
                self.dir = Vec2 { x: -1, y: 0 };
            },
            Some(1) => {
                self.dir = Vec2 { x: 1, y: 0 };
            },
            Some(2) => {
                self.dir = Vec2 { x: 0, y: -1 };
            },
            Some(_) => {
                self.dir = Vec2 { x: 0, y: 1 };
            },
            None => {},
        }
    }
}

/// Steers each enemy by chance: one in a number of steps an enemy turns to a
/// point of the compass, drawn for it alone. Whatever is drawn, an enemy
/// either goes on as it went or faces one of the four points, and nothing
/// else of it changes.
pub fn steer_enemies(enemies: &mut Vec<Entity>)
    ensures
        final(enemies).len() == old(enemies).len(),
        forall|i: int|
            0 <= i < old(enemies).len() ==> may_follow(
                #[trigger] entities_view(old(enemies)@)[i],
                entities_view(final(enemies)@)[i],
            ),
{
    let ghost start = entities_view(enemies@);
    let mut rng = rand::thread_rng();
    let mut i: usize = 0;
    while i < enemies.len()
        invariant
            i <= enemies.len(),
            enemies.len() == start.len(),
            forall|k: int| 0 <= k < i ==> may_follow(#[trigger] start[k], enemies@[k]@),
            forall|k: int| i <= k < start.len() ==> #[trigger] start[k] == enemies@[k]@,
        decreases enemies.len() - i,
    {
        let turn = if turns(&mut rng) {
            Some(compass_roll(&mut rng))
        } else {
            None
        };
        let mut enemy = enemies[i];
        proof {
            assert(start[i as int] == enemy@);
        }
        enemy.steer(turn);
        enemies[i] = enemy;
        proof {
            if let Some(roll) = turn {
                assert(enemy@ == steered(start[i as int], Some(roll)));
            }
        }
        i += 1;
    }
    proof {
        assert forall|k: int| 0 <= k < start.len() implies may_follow(
            #[trigger] entities_view(old(enemies)@)[k],
            entities_view(enemies@)[k],
        ) by {
            assert(may_follow(start[k], enemies@[k]@));
        }
    }
}

} // verus!
