//! Tiles and their order.

use std::cmp::Ordering;
use vstd::prelude::*;
use vstd::relations::total_ordering;
use vstd::std_specs::cmp::PartialOrdSpecImpl;
use vstd::string::StringExecFns;

use crate::player_state::Wind;

pub mod suit;

pub use suit::Suit;

verus! {

/// One playable tile: a rank and the suit it belongs to. Tiles compare by rank
/// first and by suit second.
#[derive(Debug, Copy, Clone, PartialEq, Eq, Structural, Ord, Hash)]
pub struct Tile {
    pub value: u32,
    pub suit: Suit,
}

/// How the winning tile was obtained: drawn by the player, or called from
/// another player's discard.
#[derive(Debug, Copy, Clone, PartialEq, Eq, Structural, PartialOrd, Ord)]
pub enum WinMethod {
    Tsumo,
    Ron,
}

impl PartialOrd for Tile {
    fn partial_cmp(&self, other: &Self) -> (r: Option<Ordering>) {
        if self.value < other.value {
            Some(Ordering::Less)
        } else if self.value > other.value {
            Some(Ordering::Greater)
        } else if self.suit.rank() < other.suit.rank() {
            Some(Ordering::Less)
        } else if self.suit.rank() > other.suit.rank() {
            Some(Ordering::Greater)
        } else {
            Some(Ordering::Equal)
        }
    }
}

impl PartialOrdSpecImpl for Tile {
    open spec fn obeys_partial_cmp_spec() -> bool {
        true
    }

    open spec fn partial_cmp_spec(&self, other: &Self) -> Option<Ordering> {
        if self.before(*other) {
            Some(Ordering::Less)
        } else if other.before(*self) {
            Some(Ordering::Greater)
        } else {
            Some(Ordering::Equal)
        }
    }
}

impl Tile {
    /// A rank that exists on the table.
    pub open spec fn well_formed(self) -> bool {
        1 <= self.value <= 9
    }

    /// The strict tile order: by rank, then by suit.
    pub open spec fn before(self, other: Tile) -> bool {
        self.value < other.value || (self.value == other.value && self.suit.index()
            < other.suit.index())
    }

    /// The tile order, equality included.
    pub open spec fn not_after(self, other: Tile) -> bool {
        self.before(other) || self == other
    }

    /// An honor tile: a wind or a dragon.
    pub open spec fn is_honor(self) -> bool {
        self.suit == Suit::Honor
    }

    /// A terminal: the 1 or the 9 of a suit with ranks.
    pub open spec fn is_terminal(self) -> bool {
        self.suit != Suit::Honor && (self.value == 1 || self.value == 9)
    }

    /// A simple: neither a terminal nor an honor.
    pub open spec fn is_simple(self) -> bool {
        !(self.is_terminal() || self.is_honor())
    }

    /// The tile `rhs` ranks further up in the same suit, if the suit has one.
    pub open spec fn plus(self, rhs: nat) -> Option<Tile> {
        if self.value + rhs > 9 {
            None
        } else {
            Some(Tile { value: (self.value + rhs) as u32, suit: self.suit })
        }
    }

    /// Whether a sequence can hold both tiles.
    pub open spec fn sequences_with(self, b: Tile) -> bool {
        &&& self.suit != Suit::Honor
        &&& self.suit == b.suit
        &&& self.value != b.value
        &&& self.value - b.value <= 2
        &&& b.value - self.value <= 2
    }

    /// The wind an honor tile shows, if it shows one.
    pub open spec fn wind_of(self) -> Option<Wind> {
        if self.suit != Suit::Honor {
            None
        } else if self.value == 1 {
            Some(Wind::East)
        } else if self.value == 2 {
            Some(Wind::South)
        } else if self.value == 3 {
            Some(Wind::West)
        } else if self.value == 4 {
            Some(Wind::North)
        } else {
            None
        }
    }

    /// The tile as it is written: its rank, then the letter of its suit.
    pub open spec fn text(self) -> Seq<char> {
        decimal(self.value as nat).push(self.suit.letter())
    }

    /// The tile as it is written: its rank, then the letter of its suit.
    pub fn to_string(self) -> (text: String)
        ensures
            text@ == self.text(),
    {
        let mut text = decimal_text(self.value);
        let suit = self.suit.to_string();
        text.append(suit.as_str());
        assert(text@ =~= self.text());
        text
    }

    /// The tile of rank `value` in `suit`.
    pub fn new(value: u32, suit: Suit) -> (t: Self)
        ensures
            t == (Tile { value, suit }),
    {
        Self { value, suit }
    }

    /// Returns `true` if both tiles can appear in the same sequence.
    pub fn can_sequence(self, b: Self) -> (r: bool)
        ensures
            r == self.sequences_with(b),
    {
        self.suit != Suit::Honor && self.suit == b.suit && self.value != b.value && if self.value
            < b.value {
            b.value - self.value <= 2
        } else {
            self.value - b.value <= 2
        }
    }

    /// Whether the tile is an honor tile.
    pub fn honor(self) -> (r: bool)
        ensures
            r == self.is_honor(),
    {
        self.suit == Suit::Honor
    }

    /// Whether the tile is the 1 or the 9 of a suit with ranks.
    pub fn terminal(self) -> (r: bool)
        ensures
            r == self.is_terminal(),
    {
        self.suit != Suit::Honor && (self.value == 1 || self.value == 9)
    }

    /// Whether the tile is neither a terminal nor an honor.
    pub fn simple(self) -> (r: bool)
        ensures
            r == self.is_simple(),
    {
        !(self.terminal() || self.honor())
    }

    /// Steps `rhs` ranks up within the suit; there is no tile above rank 9.
    pub fn add(self, rhs: u32) -> (r: Option<Self>)
        ensures
            r == self.plus(rhs as nat),
    {
        match self.value.checked_add(rhs) {
            Some(value) if value <= 9 => Some(Self { value, suit: self.suit }),
            _ => None,
        }
    }

    /// The wind an honor tile shows, if it shows one.
    pub fn wind(self) -> (r: Option<Wind>)
        ensures
            r == self.wind_of(),
    {
        if self.suit != Suit::Honor {
            None
        } else if self.value == 1 {
            Some(Wind::East)
        } else if self.value == 2 {
            Some(Wind::South)
        } else if self.value == 3 {
            Some(Wind::West)
        } else if self.value == 4 {
            Some(Wind::North)
        } else {
            None
        }
    }

    /// Whether `self` comes strictly first in the tile order.
    pub fn precedes(self, other: Self) -> (r: bool)
        ensures
            r == self.before(other),
    {
        self < other
    }
}

/// The character of a digit below ten.
pub open spec fn digit_char(d: nat) -> char {
    if d == 0 {
        '0'
    } else if d == 1 {
        '1'
    } else if d == 2 {
        '2'
    } else if d == 3 {
        '3'
    } else if d == 4 {
        '4'
    } else if d == 5 {
        '5'
    } else if d == 6 {
        '6'
    } else if d == 7 {
        '7'
    } else if d == 8 {
        '8'
    } else {
        '9'
    }
}

/// A number in decimal digits, without leading zeros.
pub open spec fn decimal(n: nat) -> Seq<char>
    decreases n,
{
    if n < 10 {
        seq![digit_char(n)]
    } else {
        decimal(n / 10).push(digit_char(n % 10))
    }
}

/// The digit `d` as text.
fn digit_text(d: u32) -> (text: &'static str)
    requires
        d < 10,
    ensures
        text@ == seq![digit_char(d as nat)],
{
    proof {
        reveal_strlit("0");
        reveal_strlit("1");
        reveal_strlit("2");
        reveal_strlit("3");
        reveal_strlit("4");
        reveal_strlit("5");
        reveal_strlit("6");
        reveal_strlit("7");
        reveal_strlit("8");
        reveal_strlit("9");
    }
    let text = match d {
        0 => "0",
        1 => "1",
        2 => "2",
        3 => "3",
        4 => "4",
        5 => "5",
        6 => "6",
        7 => "7",
        8 => "8",
        _ => "9",
    };
    assert(text@ =~= seq![digit_char(d as nat)]);
    text
}

/// A number in decimal digits, without leading zeros.
pub fn decimal_text(n: u32) -> (text: String)
    ensures
        text@ == decimal(n as nat),
    decreases n,
{
    if n < 10 {
        String::from_str(digit_text(n))
    } else {
        let mut text = decimal_text(n / 10);
        text.append(digit_text(n % 10));
        assert(text@ =~= decimal(n as nat));
        text
    }
}

/// The tile order as a relation: `a` is `b` or comes before it.
pub open spec fn tile_order() -> spec_fn(Tile, Tile) -> bool {
    |a: Tile, b: Tile| a.not_after(b)
}

/// The tile order is a total order.
pub proof fn tile_order_is_total()
    ensures
        total_ordering(tile_order()),
{
    let r = tile_order();
    assert forall|x: Tile, y: Tile| #[trigger] r(x, y) && #[trigger] r(y, x) implies x == y by {}
    assert forall|x: Tile, y: Tile, z: Tile| #[trigger] r(x, y) && #[trigger] r(y, z) implies r(
        x,
        z,
    ) by {}
    assert forall|x: Tile, y: Tile| #[trigger] r(x, y) || #[trigger] r(y, x) by {}
}

} // verus!
