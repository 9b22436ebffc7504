//! Rink coordinates in fixed point: one rink unit is `SCALE` steps.
use vstd::prelude::*;

verus! {

/// Fixed-point steps per rink unit.
pub const SCALE: i32 = 1_000_000;

/// Width of the rink (16 units).
pub const ARENA_WIDTH: i32 = 16_000_000;

/// Height of the rink (9 units).
pub const ARENA_HEIGHT: i32 = 9_000_000;

/// Thickness of the floor and ceiling walls (1 unit).
pub const WALL_THICKNESS: i32 = 1_000_000;

/// Radius of the puck (half a unit).
pub const PUCK_RADIUS: i32 = 500_000;

/// Radius of a paddle (half a unit).
pub const PADDLE_RADIUS: i32 = 500_000;

/// A point in rink space, origin at the bottom-left corner.
#[derive(Clone, Copy, Debug, PartialEq, Eq, Structural)]
pub struct Vector2 {
    pub x: i32,
    pub y: i32,
}

/// A linear velocity, in steps per tick.
#[derive(Clone, Copy, Debug, PartialEq, Eq, Structural)]
pub struct Velocity {
    pub x: i64,
    pub y: i64,
}

/// `v` limited to the closed interval `[lo, hi]`.
pub open spec fn clamped(v: int, lo: int, hi: int) -> int {
    if v < lo {
        lo
    } else if v > hi {
        hi
    } else {
        v
    }
}

/// The point of the rink nearest to `p`, one coordinate at a time.
pub open spec fn rink_clamp(p: Vector2) -> Vector2 {
    Vector2 {
        x: clamped(p.x as int, 0, ARENA_WIDTH as int) as i32,
        y: clamped(p.y as int, 0, ARENA_HEIGHT as int) as i32,
    }
}

/// `p` lies in `[0, width] x [0, height]`.
pub open spec fn in_rink(p: Vector2) -> bool {
    0 <= p.x <= ARENA_WIDTH && 0 <= p.y <= ARENA_HEIGHT
}

/// The centre of the rink, where bodies are created and the puck is put back.
pub open spec fn spec_rink_center() -> Vector2 {
    Vector2 { x: 8_000_000, y: 4_500_000 }
}

/// The centre of the rink: (8.0, 4.5).
pub fn rink_center() -> (r: Vector2)
    ensures
        r == spec_rink_center(),
        2 * r.x == ARENA_WIDTH && 2 * r.y == ARENA_HEIGHT,
{
    Vector2 { x: ARENA_WIDTH / 2, y: ARENA_HEIGHT / 2 }
}

/// `v` limited to `[lo, hi]`.
pub fn clamp(v: i32, lo: i32, hi: i32) -> (r: i32)
    requires
        lo <= hi,
    ensures
        r == clamped(v as int, lo as int, hi as int),
{
    if v < lo {
        lo
    } else if v > hi {
        hi
    } else {
        v
    }
}

/// The target that a move towards `target` aims at: `target` clamped into the rink.
pub fn clamp_to_rink(target: Vector2) -> (r: Vector2)
    ensures
        r == rink_clamp(target),
        in_rink(r),
{
    Vector2 { x: clamp(target.x, 0, ARENA_WIDTH), y: clamp(target.y, 0, ARENA_HEIGHT) }
}

/// The one-tick velocity that carries a body at `current` onto `target`
/// clamped into the rink.
pub fn velocity_towards(current: Vector2, target: Vector2) -> (r: Velocity)
    ensures
        r.x == rink_clamp(target).x - current.x,
        r.y == rink_clamp(target).y - current.y,
{
    let goal = clamp_to_rink(target);
    Velocity { x: goal.x as i64 - current.x as i64, y: goal.y as i64 - current.y as i64 }
}

/// A target already inside the rink is its own clamped target.
pub proof fn lemma_clamp_keeps_inside(target: Vector2)
    requires
        in_rink(target),
    ensures
        rink_clamp(target) == target,
{
}

/// Each coordinate is clamped on its own: two targets that agree on a
/// coordinate have clamped targets that agree on it, whatever the other one.
pub proof fn lemma_clamp_componentwise(a: Vector2, b: Vector2)
    ensures
        a.x == b.x ==> rink_clamp(a).x == rink_clamp(b).x,
        a.y == b.y ==> rink_clamp(a).y == rink_clamp(b).y,
        rink_clamp(a).x == clamped(a.x as int, 0, ARENA_WIDTH as int),
        rink_clamp(a).y == clamped(a.y as int, 0, ARENA_HEIGHT as int),
{
}

/// Clamping lands in the rink, so a second clamp changes nothing.
pub proof fn lemma_clamp_idempotent(target: Vector2)
    ensures
        in_rink(rink_clamp(target)),
        rink_clamp(rink_clamp(target)) == rink_clamp(target),
{
}

} // verus!
