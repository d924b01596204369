//! Named scoring patterns and the tables that list them.

use vstd::prelude::*;

use crate::mentsu::Mentsu;
use crate::player_state::PlayerState;

pub mod conditional;
pub mod regular;
pub mod weird;
pub mod yakuman;

pub use conditional::conditional_yaku;
pub use regular::regular_yaku;
pub use weird::{weird_yaku_and_yakuman, WeirdYaku};
pub use yakuman::yakuman;

verus! {

/// What becomes of a yaku's han when the hand is open.
#[derive(Copy, Clone, Debug, PartialEq, Eq, Structural)]
pub enum OpenScore {
    /// The han stay as they are.
    Full,
    /// One han less.
    Reduced,
    /// The yaku does not score in an open hand.
    Illegal,
}

/// The pattern that a yaku asks of a hand.
#[derive(Copy, Clone, Debug, PartialEq, Eq, Structural)]
pub enum Pattern {
    Tanyao,
    MenzenTsumo,
    RoundWind,
    SeatWind,
    Chanta,
    Junchan,
    Pinfu,
    WhiteDragon,
    GreenDragon,
    RedDragon,
    Sanankou,
    Ryanpeikou,
    Iipeikou,
    SanshokuDoukou,
    SanshokuDoujun,
    Toitoi,
    Ittsuu,
    Tsuuiisou,
    Chinroutou,
    Suuankou,
    /// Asks nothing of the tiles.
    Declared,
}

/// A named scoring pattern.
#[derive(Copy, Clone, Debug)]
pub struct Yaku {
    pub name: &'static str,
    pub desc: &'static str,
    pub han: u32,
    pub open_score: OpenScore,
    pub pattern: Pattern,
}

impl Pattern {
    /// Whether the hand shows the pattern, for a player at the table.
    pub open spec fn holds(self, hand: Seq<Mentsu>, player: PlayerState) -> bool {
        match self {
            Pattern::Tanyao => regular::is_tanyao(hand),
            Pattern::MenzenTsumo => regular::is_menzen_tsumo(hand),
            Pattern::RoundWind => regular::has_wind_triplet(hand, player.round_wind),
            Pattern::SeatWind => regular::has_wind_triplet(hand, player.seat_wind),
            Pattern::Chanta => regular::is_chanta(hand),
            Pattern::Junchan => regular::is_junchan(hand),
            Pattern::Pinfu => regular::is_pinfu(hand),
            Pattern::WhiteDragon => regular::has_honor_triplet(hand, 5),
            Pattern::GreenDragon => regular::has_honor_triplet(hand, 6),
            Pattern::RedDragon => regular::has_honor_triplet(hand, 7),
            Pattern::Sanankou => regular::concealed_triplets(hand).len() >= 3,
            Pattern::Ryanpeikou => regular::is_ryanpeikou(hand),
            Pattern::Iipeikou => regular::is_iipeikou(hand),
            Pattern::SanshokuDoukou => regular::is_sanshoku_doukou(hand),
            Pattern::SanshokuDoujun => regular::is_sanshoku_doujun(hand),
            Pattern::Toitoi => regular::is_toitoi(hand),
            Pattern::Ittsuu => regular::is_ittsuu(hand),
            Pattern::Tsuuiisou => yakuman::is_tsuuiisou(hand),
            Pattern::Chinroutou => yakuman::is_chinroutou(hand),
            Pattern::Suuankou => regular::concealed_triplets(hand).len() >= 4,
            Pattern::Declared => true,
        }
    }

    /// Whether the hand shows the pattern, for a player at the table.
    pub fn check(self, hand: &[Mentsu], player: PlayerState) -> (r: bool)
        ensures
            r == self.holds(hand@, player),
    {
        match self {
            Pattern::Tanyao => regular::tanyao(hand),
            Pattern::MenzenTsumo => regular::menzen_tsumo(hand),
            Pattern::RoundWind => regular::wind_triplet(hand, player.round_wind),
            Pattern::SeatWind => regular::wind_triplet(hand, player.seat_wind),
            Pattern::Chanta => regular::chanta(hand),
            Pattern::Junchan => regular::junchan(hand),
            Pattern::Pinfu => regular::pinfu(hand),
            Pattern::WhiteDragon => regular::honor_triplet(hand, 5),
            Pattern::GreenDragon => regular::honor_triplet(hand, 6),
            Pattern::RedDragon => regular::honor_triplet(hand, 7),
            Pattern::Sanankou => regular::count_concealed_triplets(hand) >= 3,
            Pattern::Ryanpeikou => regular::ryanpeikou(hand),
            Pattern::Iipeikou => regular::iipeikou(hand),
            Pattern::SanshokuDoukou => regular::sanshoku_doukou(hand),
            Pattern::SanshokuDoujun => regular::sanshoku_doujun(hand),
            Pattern::Toitoi => regular::toitoi(hand),
            Pattern::Ittsuu => regular::ittsuu(hand),
            Pattern::Tsuuiisou => yakuman::tsuuiisou(hand),
            Pattern::Chinroutou => yakuman::chinroutou(hand),
            Pattern::Suuankou => regular::count_concealed_triplets(hand) >= 4,
            Pattern::Declared => true,
        }
    }
}

impl Yaku {
    /// The han that the yaku scores: one less than its value where it is
    /// reduced in an open hand.
    pub open spec fn han_when(self, menzenchin: bool) -> int {
        if self.open_score == OpenScore::Reduced && !menzenchin {
            self.han - 1
        } else {
            self.han as int
        }
    }

    /// The name of the yaku.
    pub fn name(&self) -> (s: &str)
        ensures
            s@ == self.name@,
    {
        self.name
    }

    /// Whether the hand scores the yaku, for a player at the table.
    pub fn valid_for(&self, mentsu: &[Mentsu], player: PlayerState) -> (r: bool)
        ensures
            r == self.pattern.holds(mentsu@, player),
    {
        self.pattern.check(mentsu, player)
    }

    /// Returns the yaku's han value. If applicable, accounts for reduced han
    /// when scored open. A yaku that is illegal in an open hand has no value
    /// there.
    pub fn han(self, menzenchin: bool) -> (h: u32)
        requires
            menzenchin || self.open_score != OpenScore::Illegal,
            self.han_when(menzenchin) >= 0,
        ensures
            h == self.han_when(menzenchin),
    {
        match (self.open_score, menzenchin) {
            (OpenScore::Full, _) => self.han,
            (OpenScore::Reduced, true) | (OpenScore::Illegal, _) => self.han,
            (OpenScore::Reduced, false) => self.han - 1,
        }
    }
}

/// The yaku of the regular table that the hand shows, in the order of the
/// table.
pub fn valid_yaku(hand: &[Mentsu], player: PlayerState) -> (ans: Vec<Yaku>)
    ensures
        ans@ == regular::regular_table().filter(|y: Yaku| y.pattern.holds(hand@, player)),
{
    let table = regular_yaku();
    let mut ans: Vec<Yaku> = Vec::new();
    let mut i: usize = 0;
    let ghost shown = |y: Yaku| y.pattern.holds(hand@, player);
    proof {
        reveal(Seq::filter);
        assert(table@.take(0) =~= Seq::<Yaku>::empty());
    }
    while i < table.len()
        invariant
            i <= table@.len(),
            shown == |y: Yaku| y.pattern.holds(hand@, player),
            ans@ == table@.take(i as int).filter(shown),
        decreases table.len() - i,
    {
        proof {
            reveal(Seq::filter);
            assert(table@.take(i + 1).drop_last() =~= table@.take(i as int));
        }
        let y = table[i];
        if y.valid_for(hand, player) {
            ans.push(y);
        }
        i += 1;
    }
    assert(table@.take(table@.len() as int) == table@);
    ans
}

} // verus!
