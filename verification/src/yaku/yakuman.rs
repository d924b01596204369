//! The yakuman of hands of four groups and a pair.

use vstd::prelude::*;

use super::{OpenScore, Pattern, Yaku};
use crate::mentsu::Mentsu;

verus! {

/// All honors: every group is made of honors.
pub open spec fn is_tsuuiisou(hand: Seq<Mentsu>) -> bool {
    forall|i: int| 0 <= i < hand.len() ==> (#[trigger] hand[i]).is_honor()
}

/// All terminals: every group is made of terminals.
pub open spec fn is_chinroutou(hand: Seq<Mentsu>) -> bool {
    forall|i: int| 0 <= i < hand.len() ==> (#[trigger] hand[i]).all_terminal()
}

/// Whether every group is made of honors.
pub fn tsuuiisou(hand: &[Mentsu]) -> (r: bool)
    ensures
        r == is_tsuuiisou(hand@),
{
    let mut i: usize = 0;
    while i < hand.len()
        invariant
            i <= hand@.len(),
            forall|j: int| 0 <= j < i ==> (#[trigger] hand@[j]).is_honor(),
        decreases hand.len() - i,
    {
        if !hand[i].honor() {
            return false;
        }
        i += 1;
    }
    true
}

/// Whether every group is made of terminals.
pub fn chinroutou(hand: &[Mentsu]) -> (r: bool)
    ensures
        r == is_chinroutou(hand@),
{
    let mut i: usize = 0;
    while i < hand.len()
        invariant
            i <= hand@.len(),
            forall|j: int| 0 <= j < i ==> (#[trigger] hand@[j]).all_terminal(),
        decreases hand.len() - i,
    {
        if !hand[i].entirely_terminal() {
            return false;
        }
        i += 1;
    }
    true
}

/// The yakuman that a hand of four groups and a pair can score.
pub open spec fn yakuman_table() -> Seq<Yaku> {
    seq![
        Yaku {
            name: "Tsuuiisou",
            desc: "All honors",
            han: 99,
            open_score: OpenScore::Full,
            pattern: Pattern::Tsuuiisou,
        },
        Yaku {
            name: "Chinroutou",
            desc: "All terminals",
            han: 99,
            open_score: OpenScore::Full,
            pattern: Pattern::Chinroutou,
        },
        Yaku {
            name: "Suuankou",
            desc: "Four concealed triplets",
            han: 99,
            open_score: OpenScore::Illegal,
            pattern: Pattern::Suuankou,
        },
    ]
}

/// The table of the yakuman that a hand of four groups and a pair can score.
pub fn yakuman() -> (table: Vec<Yaku>)
    ensures
        table@ == yakuman_table(),
{
    let table = vec![
        Yaku {
            name: "Tsuuiisou",
            desc: "All honors",
            han: 99,
            open_score: OpenScore::Full,
            pattern: Pattern::Tsuuiisou,
        },
        Yaku {
            name: "Chinroutou",
            desc: "All terminals",
            han: 99,
            open_score: OpenScore::Full,
            pattern: Pattern::Chinroutou,
        },
        Yaku {
            name: "Suuankou",
            desc: "Four concealed triplets",
            han: 99,
            open_score: OpenScore::Illegal,
            pattern: Pattern::Suuankou,
        },
    ];
    assert(table@ =~= yakuman_table());
    table
}

} // verus!
