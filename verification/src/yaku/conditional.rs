//! Yaku that depend on how the game went.

use vstd::prelude::*;

use super::{OpenScore, Pattern, Yaku};

verus! {

/// The yaku that depend on how the game went, not on the tiles: each holds
/// of every hand, and the caller lists those that were declared or happened.
pub open spec fn conditional_table() -> Seq<Yaku> {
    seq![
        Yaku {
            name: "Riichi",
            desc: "A closed hand declaring tenpai. Costs 1,000 pts.",
            han: 1,
            open_score: OpenScore::Illegal,
            pattern: Pattern::Declared,
        },
        Yaku {
            name: "Double riichi",
            desc: "Declared riichi on first turn before a tile call.",
            han: 2,
            open_score: OpenScore::Illegal,
            pattern: Pattern::Declared,
        },
        Yaku {
            name: "Ippatsu",
            desc: "Won with riichi before your next discard. Invalidated by calls.",
            han: 1,
            open_score: OpenScore::Illegal,
            pattern: Pattern::Declared,
        },
        Yaku {
            name: "Rinshan kaihou",
            desc: "Won by drawing a tile from the dead wall.",
            han: 1,
            open_score: OpenScore::Illegal,
            pattern: Pattern::Declared,
        },
        Yaku {
            name: "Haitei/houtei",
            desc: "Won by drawing or calling the final tile from the wall.",
            han: 1,
            open_score: OpenScore::Illegal,
            pattern: Pattern::Declared,
        },
        Yaku {
            name: "Chankan",
            desc: "Won by calling ron on an added kan.",
            han: 1,
            open_score: OpenScore::Full,
            pattern: Pattern::Declared,
        },
    ]
}

/// The table of the yaku that depend on how the game went.
pub fn conditional_yaku() -> (table: Vec<Yaku>)
    ensures
        table@ == conditional_table(),
{
    let table = vec![
        Yaku {
            name: "Riichi",
            desc: "A closed hand declaring tenpai. Costs 1,000 pts.",
            han: 1,
            open_score: OpenScore::Illegal,
            pattern: Pattern::Declared,
        },
        Yaku {
            name: "Double riichi",
            desc: "Declared riichi on first turn before a tile call.",
            han: 2,
            open_score: OpenScore::Illegal,
            pattern: Pattern::Declared,
        },
        Yaku {
            name: "Ippatsu",
            desc: "Won with riichi before your next discard. Invalidated by calls.",
            han: 1,
            open_score: OpenScore::Illegal,
            pattern: Pattern::Declared,
        },
        Yaku {
            name: "Rinshan kaihou",
            desc: "Won by drawing a tile from the dead wall.",
            han: 1,
            open_score: OpenScore::Illegal,
            pattern: Pattern::Declared,
        },
        Yaku {
            name: "Haitei/houtei",
            desc: "Won by drawing or calling the final tile from the wall.",
            han: 1,
            open_score: OpenScore::Illegal,
            pattern: Pattern::Declared,
        },
        Yaku {
            name: "Chankan",
            desc: "Won by calling ron on an added kan.",
            han: 1,
            open_score: OpenScore::Full,
            pattern: Pattern::Declared,
        },
    ];
    assert(table@ =~= conditional_table());
    table
}

} // verus!
