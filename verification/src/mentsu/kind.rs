//! The shapes of groups, their tiles and their order.

use vstd::multiset::Multiset;
use vstd::prelude::*;
use vstd::string::StringExecFns;

use crate::tile::Tile;

verus! {

/// The shape of a group and the tiles that make it.
#[derive(Debug, Copy, Clone, PartialEq, Eq, Structural, Hash, PartialOrd, Ord)]
pub enum Kind {
    Triplet(Tile),
    Quad(Tile),
    Sequence(Tile, Tile, Tile),
    Pair(Tile),
}

impl Kind {
    /// The tiles of the group, lowest first.
    pub open spec fn tiles(self) -> Seq<Tile> {
        match self {
            Kind::Pair(t) => seq![t, t],
            Kind::Triplet(t) => seq![t, t, t],
            Kind::Quad(t) => seq![t, t, t, t],
            Kind::Sequence(a, b, c) => seq![a, b, c],
        }
    }

    /// The tiles of the group as a multiset.
    pub open spec fn bag(self) -> Multiset<Tile> {
        self.tiles().to_multiset()
    }

    /// The first tile of the group.
    pub open spec fn lead(self) -> Tile {
        match self {
            Kind::Pair(t) | Kind::Triplet(t) | Kind::Quad(t) | Kind::Sequence(t, _, _) => t,
        }
    }

    /// A group that can lie on the table: its tiles have ranks from 1 to 9,
    /// and a sequence runs through three consecutive ranks of one suit that is
    /// not the honor suit.
    pub open spec fn well_formed(self) -> bool {
        match self {
            Kind::Pair(t) | Kind::Triplet(t) | Kind::Quad(t) => t.well_formed(),
            Kind::Sequence(a, b, c) => {
                &&& a.well_formed()
                &&& !a.is_honor()
                &&& a.plus(1) == Some(b)
                &&& a.plus(2) == Some(c)
            },
        }
    }

    /// Position of the shape in the order of shapes.
    pub open spec fn shape_index(self) -> int {
        match self {
            Kind::Triplet(_) => 0,
            Kind::Quad(_) => 1,
            Kind::Sequence(_, _, _) => 2,
            Kind::Pair(_) => 3,
        }
    }

    /// A triplet, a quad or a sequence: one of the four bodies of a hand.
    pub open spec fn is_body(self) -> bool {
        !(self is Pair)
    }

    /// The order of kinds: by shape, then tile by tile.
    pub open spec fn before(self, other: Kind) -> bool {
        if self.shape_index() != other.shape_index() {
            self.shape_index() < other.shape_index()
        } else {
            match (self, other) {
                (Kind::Sequence(a0, a1, a2), Kind::Sequence(b0, b1, b2)) => {
                    ||| a0.before(b0)
                    ||| (a0 == b0 && a1.before(b1))
                    ||| (a0 == b0 && a1 == b1 && a2.before(b2))
                },
                _ => self.lead().before(other.lead()),
            }
        }
    }

    /// The kind as it is written: two letters for the shape, and its tiles
    /// in brackets; one tile stands for a pair, a triplet or a quad.
    pub open spec fn text(self) -> Seq<char> {
        match self {
            Kind::Triplet(tile) => "Tr("@ + tile.text() + ")"@,
            Kind::Quad(tile) => "Qd("@ + tile.text() + ")"@,
            Kind::Sequence(t0, t1, t2) => "Sq("@ + t0.text() + ","@ + t1.text() + ","@ + t2.text()
                + ")"@,
            Kind::Pair(tile) => "Pr("@ + tile.text() + ")"@,
        }
    }

    /// The kind as it is written.
    pub fn to_string(self) -> (text: String)
        ensures
            text@ == self.text(),
    {
        match self {
            Kind::Triplet(tile) => {
                let mut text = String::from_str("Tr(");
                text.append(tile.to_string().as_str());
                text.append(")");
                text
            },
            Kind::Quad(tile) => {
                let mut text = String::from_str("Qd(");
                text.append(tile.to_string().as_str());
                text.append(")");
                text
            },
            Kind::Sequence(t0, t1, t2) => {
                let mut text = String::from_str("Sq(");
                text.append(t0.to_string().as_str());
                text.append(",");
                text.append(t1.to_string().as_str());
                text.append(",");
                text.append(t2.to_string().as_str());
                text.append(")");
                text
            },
            Kind::Pair(tile) => {
                let mut text = String::from_str("Pr(");
                text.append(tile.to_string().as_str());
                text.append(")");
                text
            },
        }
    }

    /// Whether `self` comes strictly first in the order of kinds.
    pub fn precedes(self, other: Kind) -> (r: bool)
        ensures
            r == self.before(other),
    {
        let i = self.shape_rank();
        let j = other.shape_rank();
        if i != j {
            i < j
        } else {
            match (self, other) {
                (Kind::Sequence(a0, a1, a2), Kind::Sequence(b0, b1, b2)) => {
                    a0.precedes(b0) || (a0 == b0 && a1.precedes(b1)) || (a0 == b0 && a1 == b1
                        && a2.precedes(b2))
                },
                (Kind::Triplet(a), Kind::Triplet(b)) => a.precedes(b),
                (Kind::Quad(a), Kind::Quad(b)) => a.precedes(b),
                (Kind::Pair(a), Kind::Pair(b)) => a.precedes(b),
                _ => false,
            }
        }
    }

    /// Position of the shape in the order of shapes.
    pub fn shape_rank(self) -> (r: u8)
        ensures
            r == self.shape_index(),
    {
        match self {
            Kind::Triplet(_) => 0,
            Kind::Quad(_) => 1,
            Kind::Sequence(_, _, _) => 2,
            Kind::Pair(_) => 3,
        }
    }
}

/// How often each tile occurs in a group: as often as the group lists it.
pub proof fn lemma_bag_counts(k: Kind, u: Tile)
    ensures
        k.bag().count(u) == match k {
            Kind::Pair(t) => if u == t {
                2nat
            } else {
                0nat
            },
            Kind::Triplet(t) => if u == t {
                3nat
            } else {
                0nat
            },
            Kind::Quad(t) => if u == t {
                4nat
            } else {
                0nat
            },
            Kind::Sequence(a, b, c) => (if u == a {
                1nat
            } else {
                0nat
            }) + (if u == b {
                1nat
            } else {
                0nat
            }) + (if u == c {
                1nat
            } else {
                0nat
            }),
        },
        k.bag().len() == k.tiles().len(),
{
    broadcast use vstd::seq_lib::group_to_multiset_ensures;

    let e = Seq::<Tile>::empty();
    assert(e.to_multiset() =~= Multiset::<Tile>::empty());
    match k {
        Kind::Pair(t) => {
            assert(k.tiles() =~= e.push(t).push(t));
        },
        Kind::Triplet(t) => {
            assert(k.tiles() =~= e.push(t).push(t).push(t));
        },
        Kind::Quad(t) => {
            assert(k.tiles() =~= e.push(t).push(t).push(t).push(t));
        },
        Kind::Sequence(a, b, c) => {
            assert(k.tiles() =~= e.push(a).push(b).push(c));
        },
    }
}

} // verus!
