//! One cell of the board.

use vstd::prelude::*;

use crate::records::GameType;

verus! {

/// Owner value of a cell that holds no piece.
pub const NO_PLAYER: u32 = 0;

/// Symbol carried by a piece in the letter game.
#[derive(Debug, Clone, Copy, PartialEq, Eq, Structural)]
pub enum Letter {
    T,
    O,
}

/// A cell: empty, or holding a piece with its owner and letter.
#[derive(Debug, Clone, Copy)]
pub struct Slot {
    pub occupied: bool,
    pub player: u32,
    pub letter: Letter,
}

impl Slot {
    /// The empty cell.
    pub open spec fn empty() -> Slot {
        Slot { occupied: false, player: NO_PLAYER, letter: Letter::T }
    }

    /// The cell after a piece of `player` is put in it; a piece without a
    /// letter keeps the letter the cell had.
    pub open spec fn with_piece(self, player: u32, letter: Option<Letter>) -> Slot {
        Slot {
            occupied: true,
            player,
            letter: match letter {
                Some(l) => l,
                None => self.letter,
            },
        }
    }

    pub fn new() -> (r: Self)
        ensures
            r == Slot::empty(),
    {
        Slot { occupied: false, player: NO_PLAYER, letter: Letter::T }
    }

    /// Occupy this cell with a piece of `player`; a piece without a letter
    /// keeps the letter the cell had.
    pub fn place(&mut self, player: u32, letter: Option<Letter>)
        ensures
            *final(self) == old(self).with_piece(player, letter),
    {
        self.occupied = true;
        self.player = player;
        match letter {
            None => {},
            Some(l) => {
                self.letter = l;
            },
        }
    }

    /// Remove the piece: the cell is empty again.
    pub fn clear(&mut self)
        ensures
            *final(self) == Slot::empty(),
    {
        self.occupied = false;
        self.player = NO_PLAYER;
        self.letter = Letter::T;
    }

    /// Text shown for this cell: its letter in the letter game, else nothing.
    pub fn to_string(&self, mode: GameType) -> (r: String)
        ensures
            r@ == slot_text(*self, mode),
    {
        if self.player == NO_PLAYER {
            String::new()
        } else if mode == GameType::Connect4 {
            String::new()
        } else if self.letter == Letter::T {
            proof {
                reveal_strlit("T");
            }
            "T".to_owned()
        } else {
            proof {
                reveal_strlit("O");
            }
            "O".to_owned()
        }
    }

    pub fn get_occupied(&self) -> (r: bool)
        ensures
            r == self.occupied,
    {
        self.occupied
    }

    pub fn get_player(&self) -> (r: u32)
        ensures
            r == self.player,
    {
        self.player
    }

    /// True when the cell holds a piece of `player`.
    pub fn owned_by(&self, player: u32) -> (r: bool)
        ensures
            r == (self.occupied && self.player == player),
    {
        self.occupied && self.player == player
    }

    /// True when the cell holds a piece with `letter`.
    pub fn matches_letter(&self, letter: Letter) -> (r: bool)
        ensures
            r == (self.occupied && self.letter == letter),
    {
        self.occupied && self.letter == letter
    }
}

/// Text of a cell: empty for no owner and for the discs game, else its letter.
pub open spec fn slot_text(s: Slot, mode: GameType) -> Seq<char> {
    if s.player == NO_PLAYER || mode == GameType::Connect4 {
        Seq::empty()
    } else if s.letter == Letter::T {
        seq!['T']
    } else {
        seq!['O']
    }
}

} // verus!
