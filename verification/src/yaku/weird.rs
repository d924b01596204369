//! Hand shapes that are looked for in the tiles themselves.

use vstd::prelude::*;

use super::OpenScore;
use crate::tile::Tile;

verus! {

/// A hand shape that does not split into four groups and a pair, and is
/// looked for in the tiles themselves.
#[derive(Copy, Clone, Debug, PartialEq, Eq, Structural)]
pub enum TilePattern {
    Chiitoi,
    KokushiMusou,
}

/// A named scoring pattern over the tiles of a hand.
#[derive(Copy, Clone, Debug)]
pub struct WeirdYaku {
    pub name: &'static str,
    pub desc: &'static str,
    pub han: u32,
    pub open_score: OpenScore,
    pub pattern: TilePattern,
}

/// How often the tile at position `i` occurs among the tiles.
pub open spec fn copies_of(tiles: Seq<Tile>, i: int) -> nat {
    tiles.to_multiset().count(tiles[i])
}

/// Seven pairs: every tile of the hand occurs exactly twice.
pub open spec fn is_chiitoi(tiles: Seq<Tile>) -> bool {
    forall|i: int| 0 <= i < tiles.len() ==> #[trigger] copies_of(tiles, i) == 2
}

/// Thirteen orphans: terminals and honors only, none more than twice, and
/// exactly one of them twice.
pub open spec fn is_kokushi(tiles: Seq<Tile>) -> bool {
    &&& forall|i: int| 0 <= i < tiles.len() ==> !(#[trigger] tiles[i]).is_simple()
    &&& forall|i: int| 0 <= i < tiles.len() ==> #[trigger] copies_of(tiles, i) <= 2
    &&& exists|i: int|
        0 <= i < tiles.len() && #[trigger] copies_of(tiles, i) == 2 && forall|j: int|
            0 <= j < tiles.len() && #[trigger] copies_of(tiles, j) == 2 ==> tiles[j] == tiles[i]
}

impl TilePattern {
    /// Whether the tiles show the pattern.
    pub open spec fn holds(self, tiles: Seq<Tile>) -> bool {
        match self {
            TilePattern::Chiitoi => is_chiitoi(tiles),
            TilePattern::KokushiMusou => is_kokushi(tiles),
        }
    }

    /// Whether the tiles show the pattern.
    pub fn check(self, tiles: &[Tile]) -> (r: bool)
        ensures
            r == self.holds(tiles@),
    {
        match self {
            TilePattern::Chiitoi => chiitoi(tiles),
            TilePattern::KokushiMusou => kokushi(tiles),
        }
    }
}

impl WeirdYaku {
    /// Whether the tiles score the yaku.
    pub fn valid_for(&self, tiles: &[Tile]) -> (r: bool)
        ensures
            r == self.pattern.holds(tiles@),
    {
        self.pattern.check(tiles)
    }
}

/// How often `t` occurs among the tiles.
pub fn occurrences(tiles: &[Tile], t: Tile) -> (n: usize)
    ensures
        n == tiles@.to_multiset().count(t),
{
    let mut n: usize = 0;
    let mut k: usize = 0;
    proof {
        tiles@.take(0).to_multiset_ensures();
        vstd::multiset::lemma_multiset_empty_len(tiles@.take(0).to_multiset());
    }
    while k < tiles.len()
        invariant
            k <= tiles@.len(),
            n <= k,
            n == tiles@.take(k as int).to_multiset().count(t),
        decreases tiles.len() - k,
    {
        proof {
            assert(tiles@.take(k + 1) =~= tiles@.take(k as int).push(tiles@[k as int]));
            vstd::seq_lib::to_multiset_build(tiles@.take(k as int), tiles@[k as int]);
        }
        if tiles[k] == t {
            n += 1;
        }
        k += 1;
    }
    assert(tiles@.take(tiles@.len() as int) == tiles@);
    n
}

/// Whether every tile of the hand occurs exactly twice.
pub fn chiitoi(tiles: &[Tile]) -> (r: bool)
    ensures
        r == is_chiitoi(tiles@),
{
    let mut i: usize = 0;
    while i < tiles.len()
        invariant
            i <= tiles@.len(),
            forall|j: int| 0 <= j < i ==> #[trigger] copies_of(tiles@, j) == 2,
        decreases tiles.len() - i,
    {
        if occurrences(tiles, tiles[i]) != 2 {
            assert(copies_of(tiles@, i as int) != 2);
            return false;
        }
        i += 1;
    }
    true
}

/// Whether the tiles are terminals and honors, none more than twice and
/// exactly one of them twice.
pub fn kokushi(tiles: &[Tile]) -> (r: bool)
    ensures
        r == is_kokushi(tiles@),
{
    let mut found_pair: Option<Tile> = None;
    let ghost mut at: int = 0;
    let mut i: usize = 0;
    while i < tiles.len()
        invariant
            i <= tiles@.len(),
            forall|j: int| 0 <= j < i ==> !(#[trigger] tiles@[j]).is_simple(),
            forall|j: int| 0 <= j < i ==> #[trigger] copies_of(tiles@, j) <= 2,
            match found_pair {
                Some(p) => 0 <= at < i && tiles@[at] == p && copies_of(tiles@, at) == 2
                    && forall|j: int|
                    0 <= j < i && #[trigger] copies_of(tiles@, j) == 2 ==> tiles@[j] == p,
                None => forall|j: int| 0 <= j < i ==> #[trigger] copies_of(tiles@, j) != 2,
            },
        decreases tiles.len() - i,
    {
        let t = tiles[i];
        if t.simple() {
            return false;
        }
        let n = occurrences(tiles, t);
        assert(n == copies_of(tiles@, i as int));
        if n > 2 {
            return false;
        }
        if n == 2 {
            match found_pair {
                Some(p) => {
                    if !(p == t) {
                        assert(copies_of(tiles@, at) == 2);
                        return false;
                    }
                },
                None => {
                    found_pair = Some(t);
                    proof {
                        at = i as int;
                    }
                },
            }
        }
        i += 1;
    }
    match found_pair {
        Some(_) => {
            assert(copies_of(tiles@, at) == 2);
            true
        },
        None => false,
    }
}

/// The hand shapes that are looked for in the tiles, not in the groups.
pub open spec fn weird_table() -> Seq<WeirdYaku> {
    seq![
        WeirdYaku {
            name: "Chiitoi",
            desc: "Seven (7) pairs",
            han: 2,
            open_score: OpenScore::Illegal,
            pattern: TilePattern::Chiitoi,
        },
        WeirdYaku {
            name: "Kokushi musou",
            desc: "13 terminals/honors + a copy of one",
            han: 99,
            open_score: OpenScore::Illegal,
            pattern: TilePattern::KokushiMusou,
        },
    ]
}

/// These are tougher to evaluate with regular mentsu parsing.
pub fn weird_yaku_and_yakuman() -> (table: Vec<WeirdYaku>)
    ensures
        table@ == weird_table(),
{
    let table = vec![
        WeirdYaku {
            name: "Chiitoi",
            desc: "Seven (7) pairs",
            han: 2,
            open_score: OpenScore::Illegal,
            pattern: TilePattern::Chiitoi,
        },
        WeirdYaku {
            name: "Kokushi musou",
            desc: "13 terminals/honors + a copy of one",
            han: 99,
            open_score: OpenScore::Illegal,
            pattern: TilePattern::KokushiMusou,
        },
    ];
    assert(table@ =~= weird_table());
    table
}

} // verus!
