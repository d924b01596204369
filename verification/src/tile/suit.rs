//! The suits of tiles.

use vstd::prelude::*;
use vstd::string::StringExecFns;

verus! {

/// The four families a tile can belong to. The declaration order is the order
/// in which suits compare.
#[derive(Debug, Copy, Clone, PartialEq, Eq, Structural, PartialOrd, Ord, Hash)]
pub enum Suit {
    Man,
    Pin,
    Sou,
    Honor,
}

impl Suit {
    /// Position of the suit in the suit order.
    pub open spec fn index(self) -> int {
        match self {
            Suit::Man => 0,
            Suit::Pin => 1,
            Suit::Sou => 2,
            Suit::Honor => 3,
        }
    }

    /// The letter that stands for the suit in hand notation.
    pub open spec fn letter(self) -> char {
        match self {
            Suit::Man => 'm',
            Suit::Pin => 'p',
            Suit::Sou => 's',
            Suit::Honor => 'z',
        }
    }

    /// The suit that a letter stands for.
    pub open spec fn from_letter(c: char) -> Option<Suit> {
        if c == 'm' {
            Some(Suit::Man)
        } else if c == 'p' {
            Some(Suit::Pin)
        } else if c == 's' {
            Some(Suit::Sou)
        } else if c == 'z' {
            Some(Suit::Honor)
        } else {
            None
        }
    }

    /// Position of the suit in the suit order.
    pub fn rank(self) -> (r: u8)
        ensures
            r == self.index(),
    {
        match self {
            Suit::Man => 0,
            Suit::Pin => 1,
            Suit::Sou => 2,
            Suit::Honor => 3,
        }
    }

    /// Every suit, in suit order.
    pub fn all() -> (suits: [Suit; 4])
        ensures
            suits@ == seq![Suit::Man, Suit::Pin, Suit::Sou, Suit::Honor],
    {
        [Suit::Man, Suit::Pin, Suit::Sou, Suit::Honor]
    }

    /// Reads a suit letter; any other character is not a suit.
    pub fn from_char(value: char) -> (suit: Option<Suit>)
        ensures
            suit == Suit::from_letter(value),
    {
        match value {
            'm' => Some(Suit::Man),
            's' => Some(Suit::Sou),
            'p' => Some(Suit::Pin),
            'z' => Some(Suit::Honor),
            _ => None,
        }
    }

    /// The suit as it is written: its letter.
    pub fn to_string(self) -> (text: String)
        ensures
            text@ == seq![self.letter()],
    {
        proof {
            reveal_strlit("m");
            reveal_strlit("p");
            reveal_strlit("s");
            reveal_strlit("z");
        }
        let text = String::from_str(
            match self {
                Suit::Man => "m",
                Suit::Pin => "p",
                Suit::Sou => "s",
                Suit::Honor => "z",
            },
        );
        assert(text@ =~= seq![self.letter()]);
        text
    }

    /// The letter that stands for the suit in hand notation.
    pub fn to_char(self) -> (c: char)
        ensures
            c == self.letter(),
    {
        match self {
            Suit::Man => 'm',
            Suit::Pin => 'p',
            Suit::Sou => 's',
            Suit::Honor => 'z',
        }
    }
}

} // verus!
