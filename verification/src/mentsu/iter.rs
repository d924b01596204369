//! A walk over the tiles of one group.

use vstd::prelude::*;

use super::Mentsu;
use crate::mentsu::kind::Kind;
use crate::tile::Tile;

verus! {

/// Walks over the tiles of one group, lowest first.
pub struct Iter {
    tiles: Vec<Tile>,
    next_idx: usize,
}

impl Iter {
    /// The cursor lies within the tiles or just behind them.
    #[verifier::type_invariant]
    spec fn well_formed(self) -> bool {
        self.next_idx <= self.tiles@.len()
    }

    /// The tiles still to come.
    pub closed spec fn rest(self) -> Seq<Tile> {
        self.tiles@.skip(self.next_idx as int)
    }

    /// A walk over the tiles of `m`, from the first.
    pub fn new(m: &Mentsu) -> (it: Self)
        ensures
            it.rest() == m.kind.tiles(),
    {
        let tiles = match m.kind {
            Kind::Pair(tile) => vec![tile, tile],
            Kind::Triplet(tile) => vec![tile, tile, tile],
            Kind::Quad(tile) => vec![tile, tile, tile, tile],
            Kind::Sequence(t0, t1, t2) => vec![t0, t1, t2],
        };
        Self { tiles, next_idx: 0 }
    }

    /// Hands out the next tile, or `None` once all have been handed out.
    pub fn next(&mut self) -> (t: Option<Tile>)
        ensures
            match t {
                Some(tile) => {
                    &&& old(self).rest().len() > 0
                    &&& tile == old(self).rest()[0]
                    &&& final(self).rest() == old(self).rest().skip(1)
                },
                None => old(self).rest().len() == 0 && final(self).rest() == old(self).rest(),
            },
    {
        proof {
            use_type_invariant(&*self);
        }
        if self.next_idx < self.tiles.len() {
            let t = self.tiles[self.next_idx];
            self.next_idx += 1;
            Some(t)
        } else {
            None
        }
    }
}

} // verus!
