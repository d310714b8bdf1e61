//! A sprite-sheet animation player.
//!
//! The player is a small state machine: an ordered list of sheet cells, a
//! per-state tick counter, and a current state index. Ticking advances the
//! index once enough ticks have passed; a looping animation wraps back to
//! the first state one step before the last index, a one-shot animation
//! marks itself done instead. Reading the current cell applies the
//! horizontal mirror lazily: the cell's width sign records whether it is
//! currently mirrored, so reading twice without a facing change returns the
//! same cell.

use vstd::prelude::*;
use crate::sprites::SheetRegion;

verus! {

/// A sprite-sheet animation player.
#[derive(Clone, Debug)]
pub struct Animation {
    /// The ordered sprite-sheet cells of the animation, one per state.
    pub states: Vec<SheetRegion>,
    /// Ticks elapsed on the current state.
    pub frame_counter: i32,
    /// Ticks that must pass on a state before advancing to the next one.
    pub rate: i32,
    /// The current index into `states`.
    pub state_number: usize,
    /// Mirror playback horizontally.
    pub is_facing_left: bool,
    /// Horizontal footprint of the sprite, used to reposition a mirrored
    /// cell so it covers the same ground.
    pub sprite_width: i64,
    /// Wrap to the first state at the end instead of halting.
    pub is_looping: bool,
    /// Whether a one-shot animation has reached its final state.
    pub is_done: bool,
}

/// What one tick does. The counter increments; once it passes `rate` the
/// state advances and the counter resets. A looping animation wraps to state
/// zero as soon as the advanced index reaches the last one; a one-shot
/// animation keeps advancing and records in `is_done` whether the advanced
/// index has reached the last one. An animation with no states wraps (or is
/// done) at once.
pub open spec fn ticked(a: Animation) -> Animation {
    let fc = a.frame_counter as int + 1;
    if fc > a.rate as int {
        let s = a.state_number as int + 1;
        if a.is_looping {
            Animation {
                frame_counter: 0,
                state_number: if s >= a.states@.len() as int - 1 {
                    0
                } else {
                    s as usize
                },
                ..a
            }
        } else {
            Animation {
                frame_counter: 0,
                state_number: s as usize,
                is_done: s >= a.states@.len() as int - 1,
                ..a
            }
        }
    } else {
        Animation { frame_counter: fc as i32, ..a }
    }
}

/// The state index that `get_current_state` displays: the current one,
/// clamped to the last valid index for a one-shot animation whose index has
/// run past the end.
pub open spec fn display_index(a: Animation) -> int {
    if !a.is_looping && a.state_number as int > a.states@.len() as int - 1 {
        a.states@.len() as int - 1
    } else {
        a.state_number as int
    }
}

/// Whether the displayed cell must be mirrored before it is returned: its
/// width sign does not yet match the facing direction.
pub open spec fn flip_needed(a: Animation) -> bool {
    if a.is_facing_left {
        a.states@[display_index(a)].w > 0
    } else {
        a.states@[display_index(a)].w < 0
    }
}

/// A cell mirrored in place: the width flips sign and the origin shifts by
/// the sprite's footprint, right when turning left and left when turning
/// back.
pub open spec fn flipped(f: SheetRegion, facing_left: bool, sprite_width: i64) -> SheetRegion {
    SheetRegion {
        x: if facing_left {
            (f.x as int + sprite_width as int) as i64
        } else {
            (f.x as int - sprite_width as int) as i64
        },
        w: (-(f.w as int)) as i64,
        ..f
    }
}

/// The cell list after `get_current_state`: at most the displayed cell
/// changes, and only when its mirror state disagrees with the facing.
pub open spec fn gcs_states(a: Animation) -> Seq<SheetRegion> {
    if flip_needed(a) {
        a.states@.update(
            display_index(a),
            flipped(a.states@[display_index(a)], a.is_facing_left, a.sprite_width),
        )
    } else {
        a.states@
    }
}

/// The cell that `get_current_state` returns.
pub open spec fn gcs_frame(a: Animation) -> SheetRegion {
    gcs_states(a)[display_index(a)]
}

/// How many advances a looping animation needs before its index wraps back
/// to zero; zero when it is already there.
pub open spec fn wrap_steps(a: Animation) -> int {
    if a.state_number == 0 {
        0
    } else if a.state_number as int + 1 >= a.states@.len() as int - 1 {
        1
    } else {
        a.states@.len() as int - 1 - a.state_number as int
    }
}

/// How many ticks pass before the next advance.
pub open spec fn ticks_to_advance(a: Animation) -> int {
    if a.frame_counter as int >= a.rate as int {
        0
    } else {
        a.rate as int - a.frame_counter as int
    }
}

impl Animation {
    /// Advances the animation clock by one tick.
    pub fn tick(&mut self)
        requires
            old(self).frame_counter < i32::MAX,
            old(self).state_number < usize::MAX,
        ensures
            *final(self) == ticked(*old(self)),
    {
        self.frame_counter = self.frame_counter + 1;
        if self.frame_counter > self.rate {
            self.state_number = self.state_number + 1;
            if self.is_looping {
                if self.states.len() == 0 || self.state_number >= self.states.len() - 1 {
                    self.state_number = 0;
                }
            } else {
                if self.states.len() == 0 || self.state_number >= self.states.len() - 1 {
                    self.is_done = true;
                } else {
                    self.is_done = false;
                }
            }
            self.frame_counter = 0;
        }
    }

    /// Ticks the animation until its index returns to the first state. Only
    /// a looping animation is guaranteed to come back around, so an
    /// animation away from its first state must be looping here.
    pub fn stop(&mut self)
        requires
            old(self).state_number == 0 || (old(self).is_looping && old(self).frame_counter
                < i32::MAX && old(self).rate < i32::MAX && old(self).state_number < usize::MAX),
        ensures
            final(self).state_number == 0,
            final(self).states == old(self).states,
            final(self).rate == old(self).rate,
            final(self).is_looping == old(self).is_looping,
            final(self).is_facing_left == old(self).is_facing_left,
            final(self).sprite_width == old(self).sprite_width,
            final(self).is_done == old(self).is_done,
            old(self).state_number == 0 ==> final(self).frame_counter == old(self).frame_counter,
            old(self).state_number != 0 ==> final(self).frame_counter == 0,
    {
        let n = self.states.len();
        while self.state_number != 0
            invariant
                self.states@.len() == n as int,
                self.states == old(self).states,
                self.rate == old(self).rate,
                self.is_looping == old(self).is_looping,
                self.is_facing_left == old(self).is_facing_left,
                self.sprite_width == old(self).sprite_width,
                self.is_done == old(self).is_done,
                self.state_number != 0 ==> old(self).state_number != 0,
                old(self).state_number == 0 ==> self.frame_counter == old(self).frame_counter,
                old(self).state_number != 0 ==> self.is_looping && self.rate < i32::MAX,
                self.frame_counter == old(self).frame_counter || self.frame_counter == 0
                    || self.frame_counter <= self.rate,
                old(self).frame_counter < i32::MAX || old(self).state_number == 0,
                old(self).state_number < usize::MAX || old(self).state_number == 0,
                self.state_number == old(self).state_number || self.state_number == 0 || (
                self.state_number as int) < self.states@.len() as int - 1,
                self.state_number == 0 ==> (old(self).state_number == 0 || self.frame_counter
                    == 0),
            decreases wrap_steps(*self), ticks_to_advance(*self),
        {
            self.tick();
        }
    }

    /// The sheet cell of the current state, mirrored to match the facing
    /// direction. The mirror is recorded in the stored cell itself (width
    /// sign and shifted origin), so reading twice without a facing change
    /// returns the same cell; a one-shot animation whose index ran past the
    /// end is clamped to the last state first.
    pub fn get_current_state(&mut self) -> (r: SheetRegion)
        requires
            old(self).states@.len() >= 1,
            old(self).is_looping ==> old(self).state_number < old(self).states@.len(),
            old(self).is_facing_left && old(self).states@[display_index(*old(self))].w > 0
                ==> i64::MIN <= old(self).states@[display_index(*old(self))].x as int + old(
                self,
            ).sprite_width as int <= i64::MAX,
            !old(self).is_facing_left && old(self).states@[display_index(*old(self))].w < 0 ==> old(
                self,
            ).states@[display_index(*old(self))].w > i64::MIN && i64::MIN <= old(
                self,
            ).states@[display_index(*old(self))].x as int - old(self).sprite_width as int
                <= i64::MAX,
        ensures
            final(self).state_number as int == display_index(*old(self)),
            final(self).states@ == gcs_states(*old(self)),
            final(self).frame_counter == old(self).frame_counter,
            final(self).rate == old(self).rate,
            final(self).is_looping == old(self).is_looping,
            final(self).is_facing_left == old(self).is_facing_left,
            final(self).sprite_width == old(self).sprite_width,
            final(self).is_done == old(self).is_done,
            r == gcs_frame(*old(self)),
            r == final(self).states@[final(self).state_number as int],
    {
        if !self.is_looping && self.state_number > self.states.len() - 1 {
            self.state_number = self.states.len() - 1;
        }
        let i = self.state_number;
        let f = self.states[i];
        if self.is_facing_left {
            if f.w > 0 {
                self.states[i] = SheetRegion { x: f.x + self.sprite_width, w: -f.w, ..f };
            }
        } else {
            if f.w < 0 {
                self.states[i] = SheetRegion { x: f.x - self.sprite_width, w: -f.w, ..f };
            }
        }
        self.states[i]
    }

    /// Mirror playback horizontally from now on.
    pub fn apply_face_left(&mut self)
        ensures
            *final(self) == (Animation { is_facing_left: true, ..*old(self) }),
    {
        self.is_facing_left = true;
    }

    /// Stop mirroring playback from now on.
    pub fn apply_face_right(&mut self)
        ensures
            *final(self) == (Animation { is_facing_left: false, ..*old(self) }),
    {
        self.is_facing_left = false;
    }

    /// Rewinds the animation to its first state and resets its clock,
    /// whatever has been played so far.
    pub fn restart_animation(&mut self)
        ensures
            *final(self) == (Animation { frame_counter: 0, state_number: 0, ..*old(self) }),
    {
        self.frame_counter = 0;
        self.state_number = 0;
    }
}

/// A looping animation never rests on its last state: from any index below
/// the wrap boundary, ticking keeps the index below it, and the moment an
/// advance reaches the boundary the index wraps to the first state.
pub proof fn lemma_looping_wraps_early(a: Animation)
    requires
        a.is_looping,
        a.state_number < usize::MAX,
        a.states@.len() >= 2,
        (a.state_number as int) < a.states@.len() - 1,
    ensures
        (ticked(a).state_number as int) < a.states@.len() - 1,
        a.frame_counter as int + 1 > a.rate as int && a.state_number as int + 1
            >= a.states@.len() - 1 ==> ticked(a).state_number == 0,
{
}

/// Once a one-shot animation's index has reached the last state, it stays
/// there or beyond, and `is_done` holds after every advancing tick and is
/// never cleared by a non-advancing one: a finished one-shot animation
/// remains finished.
pub proof fn lemma_one_shot_done_stays(a: Animation)
    requires
        !a.is_looping,
        a.state_number < usize::MAX,
        a.state_number as int >= a.states@.len() as int - 1,
    ensures
        ticked(a).state_number as int >= a.states@.len() as int - 1,
        a.frame_counter as int + 1 > a.rate as int ==> ticked(a).is_done,
        a.frame_counter as int + 1 <= a.rate as int ==> ticked(a).is_done == a.is_done,
{
}

/// Reading the current cell is idempotent: when `b` is the player as
/// `get_current_state` leaves it, a second read changes nothing and returns
/// the same cell.
pub proof fn lemma_flip_idempotent(a: Animation, b: Animation)
    requires
        a.states@.len() >= 1,
        a.is_looping ==> a.state_number < a.states@.len(),
        !a.is_facing_left && a.states@[display_index(a)].w < 0 ==> a.states@[display_index(a)].w
            > i64::MIN,
        b.state_number as int == display_index(a),
        b.states@ == gcs_states(a),
        b.is_looping == a.is_looping,
        b.is_facing_left == a.is_facing_left,
        b.sprite_width == a.sprite_width,
    ensures
        display_index(b) == b.state_number as int,
        gcs_states(b) == b.states@,
        gcs_frame(b) == gcs_frame(a),
{
    assert(b.states@.len() == a.states@.len());
    assert(0 <= display_index(a) < a.states@.len());
    assert(display_index(b) == b.state_number as int);
    assert(!flip_needed(b));
}

} // verus!
