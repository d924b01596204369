//! Groups: the units that a hand is split into.

use vstd::prelude::*;
use vstd::std_specs::cmp::PartialEqSpecImpl;
use vstd::string::StringExecFns;

use crate::player_state::Wind;
use crate::tile::{Suit, Tile};
use crate::win_wait::WinWait;

pub mod iter;
pub mod kind;

pub use iter::Iter;
pub use kind::Kind;

verus! {

/// One group of a hand: its shape and tiles, whether it was completed with a
/// called tile, and the wait it was won on, if it is the group that the
/// winning tile completed.
///
/// `==` compares the kind alone; the open flag and the wait are annotations.
#[derive(Debug, Copy, Clone, Eq, PartialOrd, Ord, Hash)]
pub struct Mentsu {
    pub kind: Kind,
    pub open: bool,
    pub win_wait: Option<WinWait>,
}

impl PartialEq for Mentsu {
    fn eq(&self, other: &Self) -> (r: bool) {
        self.kind == other.kind
    }
}

impl PartialEqSpecImpl for Mentsu {
    open spec fn obeys_eq_spec() -> bool {
        true
    }

    open spec fn eq_spec(&self, other: &Self) -> bool {
        self.kind == other.kind
    }
}

/// Position of an optional wait in the order of annotations: no wait first.
pub open spec fn wait_index(w: Option<WinWait>) -> int {
    match w {
        None => 0,
        Some(w) => 1 + w.index(),
    }
}

impl Mentsu {
    /// The group `kind`, closed and without a wait.
    pub open spec fn plain(kind: Kind) -> Mentsu {
        Mentsu { kind, open: false, win_wait: None }
    }

    /// Whether `t` is one of the tiles of the group.
    pub open spec fn has(self, t: Tile) -> bool {
        match self.kind {
            Kind::Triplet(h) | Kind::Quad(h) | Kind::Pair(h) => t == h,
            Kind::Sequence(h0, h1, h2) => t == h0 || t == h1 || t == h2,
        }
    }

    /// Whether one of the tiles of the group is a terminal.
    pub open spec fn has_terminal(self) -> bool {
        match self.kind {
            Kind::Triplet(t) | Kind::Quad(t) | Kind::Pair(t) => t.is_terminal(),
            Kind::Sequence(t0, t1, t2) => t0.is_terminal() || t1.is_terminal() || t2.is_terminal(),
        }
    }

    /// Whether the group is a pair, triplet or quad of a terminal.
    pub open spec fn all_terminal(self) -> bool {
        match self.kind {
            Kind::Triplet(t) | Kind::Quad(t) | Kind::Pair(t) => t.is_terminal(),
            Kind::Sequence(_, _, _) => false,
        }
    }

    /// Whether the group is a pair, triplet or quad of an honor tile.
    pub open spec fn is_honor(self) -> bool {
        match self.kind {
            Kind::Triplet(t) | Kind::Quad(t) | Kind::Pair(t) => t.is_honor(),
            Kind::Sequence(_, _, _) => false,
        }
    }

    /// The wind that the tiles of a pair, triplet or quad show, if they show
    /// one.
    pub open spec fn wind_of(self) -> Option<Wind> {
        match self.kind {
            Kind::Triplet(t) | Kind::Quad(t) | Kind::Pair(t) => t.wind_of(),
            Kind::Sequence(_, _, _) => None,
        }
    }

    /// A triplet or a quad.
    pub open spec fn is_triplet(self) -> bool {
        self.kind is Triplet || self.kind is Quad
    }

    /// Same shape and same ranks in two different suits.
    pub open spec fn mirrors(self, other: Mentsu) -> bool {
        &&& self.kind.lead().suit != other.kind.lead().suit
        &&& self.kind.shape_index() == other.kind.shape_index()
        &&& self.kind.lead().value == other.kind.lead().value
    }

    /// The order of groups: by kind, then closed before open, then by wait.
    pub open spec fn before(self, other: Mentsu) -> bool {
        ||| self.kind.before(other.kind)
        ||| (self.kind == other.kind && !self.open && other.open)
        ||| (self.kind == other.kind && self.open == other.open && wait_index(self.win_wait)
            < wait_index(other.win_wait))
    }

    /// The order of groups, equality included.
    pub open spec fn not_after(self, other: Mentsu) -> bool {
        self.before(other) || self === other
    }

    /// The group as it is written: `Op` if it is open, its kind, and its
    /// wait if it has one.
    pub open spec fn text(self) -> Seq<char> {
        (if self.open {
            "Op"@
        } else {
            Seq::empty()
        }) + self.kind.text() + (match self.win_wait {
            Some(wait) => wait.text(),
            None => Seq::empty(),
        })
    }

    /// The group as it is written.
    pub fn to_string(self) -> (text: String)
        ensures
            text@ == self.text(),
    {
        let mut buf = String::new();
        if self.open {
            buf.append("Op");
        }
        buf.append(self.kind.to_string().as_str());
        if let Some(wait) = self.win_wait {
            buf.append(wait.to_string().as_str());
        }
        assert(buf@ =~= self.text());
        buf
    }

    /// The group `kind`, closed and without a wait.
    pub fn new(kind: Kind) -> (m: Self)
        ensures
            m === Mentsu::plain(kind),
    {
        Self { kind, open: false, win_wait: None }
    }

    /// Whether `t` is one of the tiles of the group.
    pub fn contains(self, t: Tile) -> (r: bool)
        ensures
            r == self.has(t),
    {
        match self.kind {
            Kind::Triplet(h) | Kind::Quad(h) | Kind::Pair(h) => t == h,
            Kind::Sequence(h0, h1, h2) => t == h0 || t == h1 || t == h2,
        }
    }

    /// Sets the wait and leaves the rest.
    pub fn set_win_wait(&mut self, val: Option<WinWait>)
        ensures
            *final(self) === (Mentsu { win_wait: val, ..*old(self) }),
    {
        self.win_wait = val;
    }

    /// Sets the open flag and leaves the rest.
    pub fn set_open(&mut self, val: bool)
        ensures
            *final(self) === (Mentsu { open: val, ..*old(self) }),
    {
        self.open = val;
    }

    /// Whether one of the tiles of the group is a terminal.
    pub fn contains_terminal(self) -> (r: bool)
        ensures
            r == self.has_terminal(),
    {
        match self.kind {
            Kind::Triplet(t) | Kind::Quad(t) | Kind::Pair(t) => t.terminal(),
            Kind::Sequence(t0, t1, t2) => t0.terminal() || t1.terminal() || t2.terminal(),
        }
    }

    /// Whether the group is not open.
    pub fn closed(self) -> (r: bool)
        ensures
            r == !self.open,
    {
        !self.open
    }

    /// Whether the group is a pair, triplet or quad of a terminal.
    pub fn entirely_terminal(self) -> (r: bool)
        ensures
            r == self.all_terminal(),
    {
        match self.kind {
            Kind::Triplet(t) | Kind::Quad(t) | Kind::Pair(t) => t.terminal(),
            Kind::Sequence(_, _, _) => false,
        }
    }

    /// The suit of the group: that of its first tile.
    pub fn suit(self) -> (s: Suit)
        ensures
            s == self.kind.lead().suit,
    {
        match self.kind {
            Kind::Triplet(t) | Kind::Quad(t) | Kind::Pair(t) | Kind::Sequence(t, _, _) => t.suit,
        }
    }

    /// Whether the group is a pair, triplet or quad of an honor tile.
    pub fn honor(self) -> (r: bool)
        ensures
            r == self.is_honor(),
    {
        match self.kind {
            Kind::Triplet(t) | Kind::Quad(t) | Kind::Pair(t) => t.honor(),
            Kind::Sequence(_, _, _) => false,
        }
    }

    /// Whether the group is a pair.
    pub fn pair(self) -> (r: bool)
        ensures
            r == (self.kind is Pair),
    {
        matches!(self.kind, Kind::Pair(_))
    }

    /// Whether the group is a quad.
    pub fn quad(self) -> (r: bool)
        ensures
            r == (self.kind is Quad),
    {
        matches!(self.kind, Kind::Quad(_))
    }

    /// Whether the group is a sequence.
    pub fn sequence(self) -> (r: bool)
        ensures
            r == (self.kind is Sequence),
    {
        matches!(self.kind, Kind::Sequence(_, _, _))
    }

    /// Whether the group is a triplet or a quad.
    pub fn triplet(self) -> (r: bool)
        ensures
            r == self.is_triplet(),
    {
        matches!(self.kind, Kind::Triplet(_) | Kind::Quad(_))
    }

    /// The wind that the tiles of a pair, triplet or quad show, if they show
    /// one.
    pub fn wind(self) -> (w: Option<Wind>)
        ensures
            w == self.wind_of(),
    {
        match self.kind {
            Kind::Triplet(t) | Kind::Quad(t) | Kind::Pair(t) => t.wind(),
            Kind::Sequence(_, _, _) => None,
        }
    }

    /// Returns `true` if and only if both mentsu fulfill all 3 conditions:
    ///
    /// (1) Same type (e.g. triplet, pair)
    /// (2) Identical values
    /// (3) Different suits
    ///
    /// Used for scoring sanshoku doujun and sanshoku doukou.
    pub fn eq_diff_suits(self, other: Self) -> (r: bool)
        ensures
            r == self.mirrors(other),
    {
        if self.suit() == other.suit() {
            return false;
        }
        match (self.kind, other.kind) {
            (Kind::Sequence(a, _, _), Kind::Sequence(b, _, _))
            | (Kind::Triplet(a), Kind::Triplet(b))
            | (Kind::Quad(a), Kind::Quad(b))
            | (Kind::Pair(a), Kind::Pair(b)) => a.value == b.value,
            _ => false,
        }
    }

    /// Whether the two groups agree in kind, open flag and wait.
    pub fn identical(self, other: Self) -> (r: bool)
        ensures
            r == (self === other),
    {
        self.kind == other.kind && self.open == other.open && self.win_wait == other.win_wait
    }

    /// Whether `self` comes strictly first in the order of groups.
    pub fn precedes(self, other: Self) -> (r: bool)
        ensures
            r == self.before(other),
    {
        if self.kind.precedes(other.kind) {
            true
        } else if self.kind == other.kind {
            if self.open != other.open {
                !self.open
            } else {
                wait_rank(self.win_wait) < wait_rank(other.win_wait)
            }
        } else {
            false
        }
    }

    /// A walk over the tiles of the group, from the first.
    pub fn iter(&self) -> (it: Iter)
        ensures
            it.rest() == self.kind.tiles(),
    {
        Iter::new(self)
    }
}

/// Position of an optional wait in the order of annotations: no wait first.
pub fn wait_rank(w: Option<WinWait>) -> (r: u8)
    ensures
        r == wait_index(w),
{
    match w {
        None => 0,
        Some(w) => 1 + w.rank(),
    }
}

/// The tiles of a list of groups, group after group.
pub open spec fn tiles_of(ms: Seq<Mentsu>) -> Seq<Tile>
    decreases ms.len(),
{
    if ms.len() == 0 {
        Seq::empty()
    } else {
        tiles_of(ms.drop_last()) + ms.last().kind.tiles()
    }
}

/// The group lists that a vector of hands holds.
pub open spec fn hands(v: Seq<Vec<Mentsu>>) -> Seq<Seq<Mentsu>> {
    Seq::new(v.len(), |i: int| v[i]@)
}

/// The tiles of a list of groups, group after group.
pub fn get_tiles(ms: &[Mentsu]) -> (tiles: Vec<Tile>)
    ensures
        tiles@ == tiles_of(ms@),
{
    let mut tiles: Vec<Tile> = Vec::new();
    let mut i: usize = 0;
    while i < ms.len()
        invariant
            i <= ms.len(),
            tiles@ == tiles_of(ms@.take(i as int)),
        decreases ms.len() - i,
    {
        let mut it = ms[i].iter();
        let ghost before = tiles@;
        loop
            invariant
                i < ms@.len(),
                before + ms@[i as int].kind.tiles() == tiles@ + it.rest(),
            ensures
                tiles@ == before + ms@[i as int].kind.tiles(),
            decreases it.rest().len(),
        {
            match it.next() {
                Some(t) => tiles.push(t),
                None => break,
            }
        }
        proof {
            assert(ms@.take(i + 1).drop_last() == ms@.take(i as int));
        }
        i += 1;
    }
    proof {
        assert(ms@.take(ms.len() as int) == ms@);
    }
    tiles
}

} // verus!
