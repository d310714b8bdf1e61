//! World-level helpers around the actor: per-tick movement with world-edge
//! clamping, keeping wandering entities inside the world, and drawing a
//! random spawn position that keeps clear of what is already placed.

use vstd::prelude::*;
use rand::Rng;
use crate::geom::{dist_sq, dist_sq_spec, vec2_within, Vec2, COORD_LIMIT};

verus! {

/// Relies on rand::Rng::gen_range on the thread-local generator: returns a
/// value within the given half-open range, which is non-empty here, so the
/// call cannot panic. Nothing more is assumed of the draw.
#[verifier::external_body]
fn random_coord(lo: i64, hi: i64) -> (r: i64)
    requires
        lo < hi,
    ensures
        lo <= r < hi,
{
    rand::thread_rng().gen_range(lo..hi)
}

/// A position is free when it keeps a distance of more than `spacing` from
/// every occupied position.
pub open spec fn pos_free(pos: Vec2, taken: Seq<Vec2>, spacing: int) -> bool {
    forall|i: int|
        0 <= i < taken.len() ==> dist_sq_spec(#[trigger] taken[i], pos) > spacing * spacing
}

/// Whether `pos` keeps a distance of more than `spacing` from every
/// position in `taken`.
pub fn pos_is_free(pos: Vec2, taken: &Vec<Vec2>, spacing: i64) -> (r: bool)
    requires
        vec2_within(pos, COORD_LIMIT as int),
        0 <= spacing <= COORD_LIMIT,
        forall|i: int| 0 <= i < taken@.len() ==> vec2_within(#[trigger] taken@[i], COORD_LIMIT as int),
    ensures
        r == pos_free(pos, taken@, spacing as int),
{
    proof {
        assert(spacing * spacing <= COORD_LIMIT * COORD_LIMIT) by (nonlinear_arith)
            requires
                0 <= spacing <= COORD_LIMIT,
        ;
        assert(spacing * spacing >= 0) by (nonlinear_arith);
    }
    let threshold = spacing * spacing;
    let mut i: usize = 0;
    while i < taken.len()
        invariant
            i <= taken@.len(),
            threshold == spacing * spacing,
            vec2_within(pos, COORD_LIMIT as int),
            forall|k: int|
                0 <= k < taken@.len() ==> vec2_within(#[trigger] taken@[k], COORD_LIMIT as int),
            forall|k: int| 0 <= k < i ==> dist_sq_spec(#[trigger] taken@[k], pos) > spacing
                * spacing,
        decreases taken@.len() - i,
    {
        if dist_sq(taken[i], pos) <= threshold {
            return false;
        }
        i += 1;
    }
    true
}

/// Draws random positions inside the world until one keeps clear of every
/// occupied spot, giving up after `attempts` draws. Whether a draw is
/// accepted depends on chance, so an accepted position is promised only to
/// lie inside the world's spawn band and to be free; but when nothing is
/// taken no draw can be rejected, so the first one is owed, and with no
/// draw budget nothing is ever returned.
pub fn new_random_pos(
    taken: &Vec<Vec2>,
    world_w: i64,
    world_h: i64,
    spacing: i64,
    attempts: usize,
) -> (r: Option<Vec2>)
    requires
        2 <= world_w <= COORD_LIMIT,
        2 <= world_h <= COORD_LIMIT,
        0 <= spacing <= COORD_LIMIT,
        forall|i: int| 0 <= i < taken@.len() ==> vec2_within(#[trigger] taken@[i], COORD_LIMIT as int),
    ensures
        r matches Some(p) ==> 0 <= p.x < world_w - 1 && 0 <= p.y < world_h - 1 && pos_free(
            p,
            taken@,
            spacing as int,
        ),
        taken@.len() == 0 && attempts >= 1 ==> r is Some,
        attempts == 0 ==> r is None,
{
    let mut k: usize = 0;
    while k < attempts
        invariant
            2 <= world_w <= COORD_LIMIT,
            2 <= world_h <= COORD_LIMIT,
            0 <= spacing <= COORD_LIMIT,
            forall|i: int|
                0 <= i < taken@.len() ==> vec2_within(#[trigger] taken@[i], COORD_LIMIT as int),
            // with nothing taken, the very first draw is free and accepted
            taken@.len() == 0 ==> k == 0,
        decreases attempts - k,
    {
        let p = Vec2 { x: random_coord(0, world_w - 1), y: random_coord(0, world_h - 1) };
        if pos_is_free(p, taken, spacing) {
            return Some(p);
        }
        k += 1;
    }
    None
}

/// Two points within catching distance of one another.
pub open spec fn within_radius(a: Vec2, b: Vec2, radius: int) -> bool {
    dist_sq_spec(a, b) <= radius * radius
}

/// The first position within `radius` of `pos`: the one a pickup collects.
/// Returns `Some` exactly when some position is within reach, and then the
/// earliest such one.
pub fn first_within(positions: &Vec<Vec2>, pos: Vec2, radius: i64) -> (r: Option<usize>)
    requires
        vec2_within(pos, COORD_LIMIT as int),
        0 <= radius <= COORD_LIMIT,
        forall|i: int|
            0 <= i < positions@.len() ==> vec2_within(#[trigger] positions@[i], COORD_LIMIT as int),
    ensures
        r matches Some(i) ==> i < positions@.len() && within_radius(
            positions@[i as int],
            pos,
            radius as int,
        ) && forall|k: int| 0 <= k < i ==> !within_radius(#[trigger] positions@[k], pos, radius as int),
        r is None ==> forall|k: int|
            0 <= k < positions@.len() ==> !within_radius(#[trigger] positions@[k], pos, radius as int),
{
    proof {
        assert(radius * radius <= COORD_LIMIT * COORD_LIMIT && radius * radius >= 0)
            by (nonlinear_arith)
            requires
                0 <= radius <= COORD_LIMIT,
        ;
    }
    let threshold = radius * radius;
    let mut i: usize = 0;
    while i < positions.len()
        invariant
            i <= positions@.len(),
            threshold == radius * radius,
            vec2_within(pos, COORD_LIMIT as int),
            forall|k: int|
                0 <= k < positions@.len() ==> vec2_within(
                    #[trigger] positions@[k],
                    COORD_LIMIT as int,
                ),
            forall|k: int| 0 <= k < i ==> !within_radius(#[trigger] positions@[k], pos, radius as int),
        decreases positions@.len() - i,
    {
        if dist_sq(positions[i], pos) <= threshold {
            return Some(i);
        }
        i += 1;
    }
    None
}

/// What one tick of movement does to one axis of the actor's position:
/// a position at or past the upper edge snaps to `hi_snap`, one at or below
/// the lower edge snaps to `lo_snap`, and anywhere in between the input
/// axis moves it by `dir * speed`.
pub open spec fn step_axis_spec(
    v: int,
    dir: int,
    speed: int,
    lo: int,
    lo_snap: int,
    hi: int,
    hi_snap: int,
) -> int {
    if v >= hi {
        hi_snap
    } else if v <= lo {
        lo_snap
    } else {
        v + dir * speed
    }
}

/// Moves one axis of the actor's position by the input axis value, snapping
/// a position at the world's edge back inside first. World-edge clamping
/// overrides movement: an out-of-band position never moves further out.
pub fn step_axis(
    v: i64,
    dir: i64,
    speed: i64,
    lo: i64,
    lo_snap: i64,
    hi: i64,
    hi_snap: i64,
) -> (r: i64)
    requires
        -1 <= dir <= 1,
        0 <= speed <= COORD_LIMIT,
        -COORD_LIMIT <= v <= COORD_LIMIT,
    ensures
        r == step_axis_spec(
            v as int,
            dir as int,
            speed as int,
            lo as int,
            lo_snap as int,
            hi as int,
            hi_snap as int,
        ),
{
    if v >= hi {
        hi_snap
    } else if v <= lo {
        lo_snap
    } else {
        let delta = if dir > 0 {
            speed
        } else if dir < 0 {
            -speed
        } else {
            0
        };
        proof {
            if dir == 1 {
                assert(dir * speed == speed) by (nonlinear_arith)
                    requires
                        dir == 1,
                ;
            } else if dir == -1 {
                assert(dir * speed == -(speed as int)) by (nonlinear_arith)
                    requires
                        dir == -1,
                ;
            } else {
                assert(dir == 0);
                assert(dir * speed == 0) by (nonlinear_arith)
                    requires
                        dir == 0,
                ;
            }
        }
        v + delta
    }
}

/// Where a wandering entity ends up after being kept inside the world: a
/// coordinate at or past an edge is set one unit inside it.
pub open spec fn clamp_into_world_spec(pos: Vec2, world_w: int, world_h: int) -> Vec2 {
    Vec2 {
        x: if pos.x as int >= world_w {
            (world_w - 1) as i64
        } else if pos.x <= 0 {
            1i64
        } else {
            pos.x
        },
        y: if pos.y as int >= world_h {
            (world_h - 1) as i64
        } else if pos.y <= 0 {
            1i64
        } else {
            pos.y
        },
    }
}

/// Keeps a wandering entity inside the world: a coordinate at or past an
/// edge is set one unit inside it.
pub fn clamp_into_world(pos: Vec2, world_w: i64, world_h: i64) -> (r: Vec2)
    requires
        1 <= world_w <= COORD_LIMIT,
        1 <= world_h <= COORD_LIMIT,
    ensures
        r == clamp_into_world_spec(pos, world_w as int, world_h as int),
{
    let x = if pos.x >= world_w {
        world_w - 1
    } else if pos.x <= 0 {
        1
    } else {
        pos.x
    };
    let y = if pos.y >= world_h {
        world_h - 1
    } else if pos.y <= 0 {
        1
    } else {
        pos.y
    };
    Vec2 { x, y }
}

/// The facing direction after reading the arrow keys: down, up, left and
/// right map to the direction codes 0 to 3, the first pressed key in that
/// order winning; with none pressed the facing is kept.
pub fn direction_from_input(down: bool, up: bool, left: bool, right: bool, current: usize) -> (r:
    usize)
    ensures
        r == if down {
            0usize
        } else if up {
            1usize
        } else if left {
            2usize
        } else if right {
            3usize
        } else {
            current
        },
{
    if down {
        0
    } else if up {
        1
    } else if left {
        2
    } else if right {
        3
    } else {
        current
    }
}

} // verus!
