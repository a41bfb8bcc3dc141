use vstd::prelude::*;

verus! {

/// A move: the cell of the board that a player picks, named after the digit
/// key that selects it (`One` is the top-left cell, `Nine` the bottom-right).
#[derive(Clone, Copy, PartialEq, Eq, Structural, Debug)]
pub enum Play {
    One,
    Two,
    Three,
    Four,
    Five,
    Six,
    Seven,
    Eight,
    Nine,
}

impl Play {
    /// The board index (0 to 8, row by row) of the cell this move picks.
    pub open spec fn cell(self) -> int {
        match self {
            Play::One => 0,
            Play::Two => 1,
            Play::Three => 2,
            Play::Four => 3,
            Play::Five => 4,
            Play::Six => 5,
            Play::Seven => 6,
            Play::Eight => 7,
            Play::Nine => 8,
        }
    }

    /// The board index of the cell this move picks.
    pub fn index(&self) -> (i: usize)
        ensures
            i == self.cell(),
            i < 9,
    {
        match *self {
            Play::One => 0,
            Play::Two => 1,
            Play::Three => 2,
            Play::Four => 3,
            Play::Five => 4,
            Play::Six => 5,
            Play::Seven => 6,
            Play::Eight => 7,
            Play::Nine => 8,
        }
    }
}

/// One of the two players.
#[derive(Clone, Copy, PartialEq, Eq, Structural, Debug)]
pub enum Player {
    X,
    O,
}

impl Player {
    /// The other player.
    pub open spec fn other(self) -> Player {
        match self {
            Player::X => Player::O,
            Player::O => Player::X,
        }
    }

    /// The player whose turn comes after this one's.
    pub fn flip(&self) -> (p: Self)
        ensures
            p == self.other(),
    {
        match self {
            Player::X => Player::O,
            Player::O => Player::X,
        }
    }
}

/// Each move names its cell, row by row from the top left: the digit key's
/// number less one.
pub proof fn lemma_play_cells()
    ensures
        Play::One.cell() == 0,
        Play::Two.cell() == 1,
        Play::Three.cell() == 2,
        Play::Four.cell() == 3,
        Play::Five.cell() == 4,
        Play::Six.cell() == 5,
        Play::Seven.cell() == 6,
        Play::Eight.cell() == 7,
        Play::Nine.cell() == 8,
{
}

/// Flipping changes the player, and flipping twice gives the player back:
/// turns alternate between exactly two players.
pub proof fn lemma_flip_alternates(p: Player)
    ensures
        p.other() != p,
        p.other().other() == p,
{
}

/// A move made by a given player.
#[derive(Clone, Copy, PartialEq, Eq, Structural, Debug)]
pub struct Event {
    pub play: Play,
    pub player: Player,
}

impl Event {
    /// The event of `player` making the move `play`.
    pub fn new(play: Play, player: Player) -> (e: Self)
        ensures
            e.play == play,
            e.player == player,
    {
        Self { play, player }
    }
}

} // verus!
