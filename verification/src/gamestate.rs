//! The screens a game moves through.

use vstd::prelude::*;

verus! {

/// One screen of a game: the flow runs from the title through the
/// instructions into play, with an interstitial level card, and ends on a
/// win, a loss, or an attack cut-scene.
#[derive(PartialEq, Eq, Structural, Clone, Copy, Debug)]
pub enum GameState {
    Title,
    Instructions,
    Play,
    Attack,
    Win,
    Lose,
    ShowLevel,
}

} // verus!
