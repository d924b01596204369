//! The yaku of hands of four groups and a pair.

use vstd::prelude::*;

use super::{OpenScore, Pattern, Yaku};
use crate::mentsu::{Kind, Mentsu};
use crate::player_state::Wind;
use crate::score::{is_menzenchin, menzenchin};
use crate::tile::Suit;
use crate::win_wait::WinWait;

verus! {

/// All simples: no group holds a terminal.
pub open spec fn is_tanyao(hand: Seq<Mentsu>) -> bool {
    forall|i: int| 0 <= i < hand.len() ==> !(#[trigger] hand[i]).has_terminal()
}

/// No group is open.
pub open spec fn is_menzen_tsumo(hand: Seq<Mentsu>) -> bool {
    forall|i: int| 0 <= i < hand.len() ==> !(#[trigger] hand[i]).open
}

/// A triplet or quad of the wind `wind`.
pub open spec fn has_wind_triplet(hand: Seq<Mentsu>, wind: Wind) -> bool {
    exists|i: int|
        0 <= i < hand.len() && (#[trigger] hand[i]).is_triplet() && hand[i].wind_of() == Some(wind)
}

/// Every group holds a terminal or is made of honors.
pub open spec fn is_chanta(hand: Seq<Mentsu>) -> bool {
    forall|i: int|
        0 <= i < hand.len() ==> (#[trigger] hand[i]).has_terminal() || hand[i].is_honor()
}

/// Every group holds a terminal.
pub open spec fn is_junchan(hand: Seq<Mentsu>) -> bool {
    forall|i: int| 0 <= i < hand.len() ==> (#[trigger] hand[i]).has_terminal()
}

/// The first pair of the hand is at position `i`.
pub open spec fn first_pair_at(hand: Seq<Mentsu>, i: int) -> bool {
    &&& 0 <= i < hand.len()
    &&& hand[i].kind is Pair
    &&& forall|j: int| 0 <= j < i ==> !((#[trigger] hand[j]).kind is Pair)
}

/// Minimum fu: no triplet or quad, a first pair that is not of honors, a
/// concealed hand, and a group won on an open wait.
pub open spec fn is_pinfu(hand: Seq<Mentsu>) -> bool {
    &&& forall|i: int| 0 <= i < hand.len() ==> !(#[trigger] hand[i]).is_triplet()
    &&& exists|i: int| #[trigger] first_pair_at(hand, i) && !hand[i].is_honor()
    &&& is_menzenchin(hand)
    &&& exists|i: int|
        0 <= i < hand.len() && (#[trigger] hand[i]).win_wait == Some(WinWait::Ryanmen)
}

/// The group is a triplet of the honor tile with rank `value`.
pub open spec fn is_honor_triplet(m: Mentsu, value: u32) -> bool {
    &&& m.kind matches Kind::Triplet(t)
    &&& t.is_honor()
    &&& t.value == value
}

/// A triplet of the honor tile with rank `value`.
pub open spec fn has_honor_triplet(hand: Seq<Mentsu>, value: u32) -> bool {
    exists|i: int| 0 <= i < hand.len() && is_honor_triplet(#[trigger] hand[i], value)
}

/// The triplets and quads of the hand that are not open.
pub open spec fn concealed_triplets(hand: Seq<Mentsu>) -> Seq<Mentsu> {
    hand.filter(|m: Mentsu| !m.open && m.is_triplet())
}

/// The group at `i` is a sequence, and another group of the hand is the same
/// sequence.
pub open spec fn twinned(hand: Seq<Mentsu>, i: int) -> bool {
    &&& 0 <= i < hand.len()
    &&& hand[i].kind is Sequence
    &&& exists|j: int| 0 <= j < hand.len() && j != i && (#[trigger] hand[j]).kind == hand[i].kind
}

/// Identical sequences: some sequence occurs twice.
pub open spec fn is_iipeikou(hand: Seq<Mentsu>) -> bool {
    exists|i: int| #[trigger] twinned(hand, i)
}

/// Twin identical sequences: three sequences of the hand each have a twin,
/// which takes two twin pairs, or three or four sequences alike.
pub open spec fn is_ryanpeikou(hand: Seq<Mentsu>) -> bool {
    exists|a: int, b: int, c: int|
        a != b && a != c && b != c && #[trigger] twinned(hand, a) && #[trigger] twinned(hand, b)
            && #[trigger] twinned(hand, c)
}

/// The group at `i` has its mirror in two other groups.
pub open spec fn mirrored_twice(hand: Seq<Mentsu>, i: int) -> bool {
    exists|j: int, k: int|
        0 <= j < hand.len() && 0 <= k < hand.len() && j != k && hand[i].mirrors(#[trigger] hand[j])
            && hand[i].mirrors(#[trigger] hand[k])
}

/// Three colors, same triplet: a triplet or quad with its mirror in two
/// other groups.
pub open spec fn is_sanshoku_doukou(hand: Seq<Mentsu>) -> bool {
    exists|i: int|
        0 <= i < hand.len() && (#[trigger] hand[i]).is_triplet() && mirrored_twice(hand, i)
}

/// Three colors, same sequence: a sequence with its mirror in two other
/// groups.
pub open spec fn is_sanshoku_doujun(hand: Seq<Mentsu>) -> bool {
    exists|i: int|
        0 <= i < hand.len() && (#[trigger] hand[i]).kind is Sequence && mirrored_twice(hand, i)
}

/// All triplets: no group is a sequence.
pub open spec fn is_toitoi(hand: Seq<Mentsu>) -> bool {
    forall|i: int| 0 <= i < hand.len() ==> !((#[trigger] hand[i]).kind is Sequence)
}

/// The group at `i` is the sequence of `suit` that starts at rank `first`.
pub open spec fn run_at(hand: Seq<Mentsu>, i: int, suit: Suit, first: int) -> bool {
    &&& 0 <= i < hand.len()
    &&& hand[i].kind matches Kind::Sequence(f, _, _)
    &&& f.suit == suit
    &&& f.value == first
}

/// The hand holds the sequences from 1, from 4 and from 7 of `suit`, in this
/// order.
pub open spec fn straight_in(hand: Seq<Mentsu>, suit: Suit) -> bool {
    exists|i: int, j: int, k: int|
        i < j < k && #[trigger] run_at(hand, i, suit, 1) && #[trigger] run_at(hand, j, suit, 4)
            && #[trigger] run_at(hand, k, suit, 7)
}

/// Pure straight: the ranks 1 to 9 of one suit in three sequences, which
/// stand in the hand in rising order.
pub open spec fn is_ittsuu(hand: Seq<Mentsu>) -> bool {
    exists|suit: Suit| #[trigger] straight_in(hand, suit)
}

/// Whether no group holds a terminal.
pub fn tanyao(hand: &[Mentsu]) -> (r: bool)
    ensures
        r == is_tanyao(hand@),
{
    let mut i: usize = 0;
    while i < hand.len()
        invariant
            i <= hand@.len(),
            forall|j: int| 0 <= j < i ==> !(#[trigger] hand@[j]).has_terminal(),
        decreases hand.len() - i,
    {
        if hand[i].contains_terminal() {
            return false;
        }
        i += 1;
    }
    true
}

/// Whether no group is open.
pub fn menzen_tsumo(hand: &[Mentsu]) -> (r: bool)
    ensures
        r == is_menzen_tsumo(hand@),
{
    let mut i: usize = 0;
    while i < hand.len()
        invariant
            i <= hand@.len(),
            forall|j: int| 0 <= j < i ==> !(#[trigger] hand@[j]).open,
        decreases hand.len() - i,
    {
        if hand[i].open {
            return false;
        }
        i += 1;
    }
    true
}

/// Whether the hand has a triplet or quad of the wind `wind`.
pub fn wind_triplet(hand: &[Mentsu], wind: Wind) -> (r: bool)
    ensures
        r == has_wind_triplet(hand@, wind),
{
    let mut i: usize = 0;
    while i < hand.len()
        invariant
            i <= hand@.len(),
            forall|j: int|
                0 <= j < i ==> !((#[trigger] hand@[j]).is_triplet() && hand@[j].wind_of() == Some(
                    wind,
                )),
        decreases hand.len() - i,
    {
        if hand[i].triplet() {
            match hand[i].wind() {
                Some(w) => {
                    if w == wind {
                        return true;
                    }
                },
                None => {},
            }
        }
        i += 1;
    }
    false
}

/// Whether every group holds a terminal or is made of honors.
pub fn chanta(hand: &[Mentsu]) -> (r: bool)
    ensures
        r == is_chanta(hand@),
{
    let mut i: usize = 0;
    while i < hand.len()
        invariant
            i <= hand@.len(),
            forall|j: int|
                0 <= j < i ==> (#[trigger] hand@[j]).has_terminal() || hand@[j].is_honor(),
        decreases hand.len() - i,
    {
        if !(hand[i].contains_terminal() || hand[i].honor()) {
            return false;
        }
        i += 1;
    }
    true
}

/// Whether every group holds a terminal.
pub fn junchan(hand: &[Mentsu]) -> (r: bool)
    ensures
        r == is_junchan(hand@),
{
    let mut i: usize = 0;
    while i < hand.len()
        invariant
            i <= hand@.len(),
            forall|j: int| 0 <= j < i ==> (#[trigger] hand@[j]).has_terminal(),
        decreases hand.len() - i,
    {
        if !hand[i].contains_terminal() {
            return false;
        }
        i += 1;
    }
    true
}

/// Whether no group is a triplet or a quad.
fn no_triplets(hand: &[Mentsu]) -> (r: bool)
    ensures
        r == (forall|i: int| 0 <= i < hand@.len() ==> !(#[trigger] hand@[i]).is_triplet()),
{
    let mut i: usize = 0;
    while i < hand.len()
        invariant
            i <= hand@.len(),
            forall|j: int| 0 <= j < i ==> !(#[trigger] hand@[j]).is_triplet(),
        decreases hand.len() - i,
    {
        if hand[i].triplet() {
            return false;
        }
        i += 1;
    }
    true
}

/// The first pair of the hand, if it has one.
fn first_pair(hand: &[Mentsu]) -> (found: Option<Mentsu>)
    ensures
        match found {
            Some(m) => exists|i: int| #[trigger] first_pair_at(hand@, i) && hand@[i] == m,
            None => forall|i: int| 0 <= i < hand@.len() ==> !((#[trigger] hand@[i]).kind is Pair),
        },
{
    let mut i: usize = 0;
    while i < hand.len()
        invariant
            i <= hand@.len(),
            forall|j: int| 0 <= j < i ==> !((#[trigger] hand@[j]).kind is Pair),
        decreases hand.len() - i,
    {
        if hand[i].pair() {
            assert(first_pair_at(hand@, i as int));
            return Some(hand[i]);
        }
        i += 1;
    }
    None
}

/// Whether some group was won on an open wait.
fn won_on_ryanmen(hand: &[Mentsu]) -> (r: bool)
    ensures
        r == (exists|i: int|
            0 <= i < hand@.len() && (#[trigger] hand@[i]).win_wait == Some(WinWait::Ryanmen)),
{
    let mut i: usize = 0;
    while i < hand.len()
        invariant
            i <= hand@.len(),
            forall|j: int| 0 <= j < i ==> (#[trigger] hand@[j]).win_wait != Some(WinWait::Ryanmen),
        decreases hand.len() - i,
    {
        match hand[i].win_wait {
            Some(WinWait::Ryanmen) => {
                return true;
            },
            _ => {},
        }
        i += 1;
    }
    false
}

/// Whether the hand has no triplet or quad, a first pair that is not of
/// honors, no group that was called before the win, and a group won on an
/// open wait.
pub fn pinfu(hand: &[Mentsu]) -> (r: bool)
    ensures
        r == is_pinfu(hand@),
{
    if !no_triplets(hand) {
        return false;
    }
    let pair_ok = match first_pair(hand) {
        Some(m) => {
            proof {
                let i = choose|i: int| #[trigger] first_pair_at(hand@, i) && hand@[i] == m;
                assert forall|k: int| #[trigger] first_pair_at(hand@, k) implies k == i by {
                    if k < i {
                        assert(!(hand@[k].kind is Pair));
                    } else if i < k {
                        assert(!(hand@[i].kind is Pair));
                    }
                }
            }
            !m.honor()
        },
        None => false,
    };
    pair_ok && menzenchin(hand) && won_on_ryanmen(hand)
}

/// Whether the hand has a triplet of the honor tile with rank `value`.
pub fn honor_triplet(hand: &[Mentsu], value: u32) -> (r: bool)
    ensures
        r == has_honor_triplet(hand@, value),
{
    let mut i: usize = 0;
    while i < hand.len()
        invariant
            i <= hand@.len(),
            forall|j: int| 0 <= j < i ==> !is_honor_triplet(#[trigger] hand@[j], value),
        decreases hand.len() - i,
    {
        if let Kind::Triplet(t) = hand[i].kind {
            if t.honor() && t.value == value {
                return true;
            }
        }
        i += 1;
    }
    false
}

/// The number of triplets and quads that are not open.
pub fn count_concealed_triplets(hand: &[Mentsu]) -> (n: usize)
    ensures
        n == concealed_triplets(hand@).len(),
{
    let mut n: usize = 0;
    let mut i: usize = 0;
    proof {
        reveal(Seq::filter);
        assert(hand@.take(0) =~= Seq::<Mentsu>::empty());
    }
    while i < hand.len()
        invariant
            i <= hand@.len(),
            n <= i,
            n == concealed_triplets(hand@.take(i as int)).len(),
        decreases hand.len() - i,
    {
        proof {
            reveal(Seq::filter);
            assert(hand@.take(i + 1).drop_last() =~= hand@.take(i as int));
        }
        if hand[i].closed() && hand[i].triplet() {
            n += 1;
        }
        i += 1;
    }
    assert(hand@.take(hand@.len() as int) == hand@);
    n
}

/// The first group other than the one at `i` that is of the same kind.
fn find_twin(hand: &[Mentsu], i: usize) -> (found: Option<usize>)
    requires
        i < hand@.len(),
    ensures
        match found {
            Some(j) => j < hand@.len() && j != i && hand@[j as int].kind == hand@[i as int].kind,
            None => forall|j: int|
                0 <= j < hand@.len() && j != i ==> (#[trigger] hand@[j]).kind != hand@[i as int].kind,
        },
{
    let mut j: usize = 0;
    while j < hand.len()
        invariant
            j <= hand@.len(),
            i < hand@.len(),
            forall|k: int| 0 <= k < j && k != i ==> (#[trigger] hand@[k]).kind != hand@[i as int].kind,
        decreases hand.len() - j,
    {
        if j != i && hand[j] == hand[i] {
            return Some(j);
        }
        j += 1;
    }
    None
}

/// Whether three sequences of the hand each have a twin.
pub fn ryanpeikou(hand: &[Mentsu]) -> (r: bool)
    ensures
        r == is_ryanpeikou(hand@),
{
    let mut twin_idx: Option<(usize, usize)> = None;
    let mut i: usize = 0;
    while i < hand.len()
        invariant
            i <= hand@.len(),
            match twin_idx {
                Some((a, b)) => a != b && twinned(hand@, a as int) && twinned(hand@, b as int)
                    && forall|k: int|
                    0 <= k < i && #[trigger] twinned(hand@, k) ==> k == a || k == b,
                None => forall|k: int| 0 <= k < i ==> !#[trigger] twinned(hand@, k),
            },
        decreases hand.len() - i,
    {
        if hand[i].sequence() {
            // Don't double-match!
            let seen = match twin_idx {
                Some((a, b)) => a == i || b == i,
                None => false,
            };
            if !seen {
                match find_twin(hand, i) {
                    Some(j) => {
                        assert(twinned(hand@, i as int));
                        assert(twinned(hand@, j as int)) by {
                            assert(hand@[i as int].kind == hand@[j as int].kind);
                        }
                        if twin_idx.is_some() {
                            return true;
                        }
                        twin_idx = Some((i, j));
                    },
                    None => {},
                }
            }
        }
        i += 1;
    }
    proof {
        assert forall|a: int, b: int, c: int|
            a != b && a != c && b != c && #[trigger] twinned(hand@, a) && #[trigger] twinned(
                hand@,
                b,
            ) implies !#[trigger] twinned(hand@, c) by {}
    }
    false
}

/// Whether some sequence occurs twice.
pub fn iipeikou(hand: &[Mentsu]) -> (r: bool)
    ensures
        r == is_iipeikou(hand@),
{
    let mut i: usize = 0;
    while i < hand.len()
        invariant
            i <= hand@.len(),
            forall|k: int| 0 <= k < i ==> !#[trigger] twinned(hand@, k),
        decreases hand.len() - i,
    {
        if hand[i].sequence() {
            if find_twin(hand, i).is_some() {
                assert(twinned(hand@, i as int));
                return true;
            }
        }
        i += 1;
    }
    false
}

/// Whether two other groups are mirrors of the group at `i`.
fn has_two_mirrors(hand: &[Mentsu], i: usize) -> (r: bool)
    requires
        i < hand@.len(),
    ensures
        r == mirrored_twice(hand@, i as int),
{
    let m = hand[i];
    let mut count: usize = 0;
    let ghost mut first: int = 0;
    let mut j: usize = 0;
    while j < hand.len()
        invariant
            j <= hand@.len(),
            i < hand@.len(),
            m == hand@[i as int],
            count <= 1,
            count == 0 ==> forall|k: int| 0 <= k < j ==> !m.mirrors(#[trigger] hand@[k]),
            count == 1 ==> 0 <= first < j && m.mirrors(hand@[first]) && forall|k: int|
                0 <= k < j && k != first ==> !m.mirrors(#[trigger] hand@[k]),
        decreases hand.len() - j,
    {
        if j != i && m.eq_diff_suits(hand[j]) {
            if count == 1 {
                return true;
            }
            count = 1;
            proof {
                first = j as int;
            }
        }
        j += 1;
    }
    false
}

/// Whether a triplet or quad has its mirror in two other groups.
pub fn sanshoku_doukou(hand: &[Mentsu]) -> (r: bool)
    ensures
        r == is_sanshoku_doukou(hand@),
{
    let mut i: usize = 0;
    while i < hand.len()
        invariant
            i <= hand@.len(),
            forall|k: int|
                0 <= k < i ==> !((#[trigger] hand@[k]).is_triplet() && mirrored_twice(hand@, k)),
        decreases hand.len() - i,
    {
        if hand[i].triplet() && has_two_mirrors(hand, i) {
            return true;
        }
        i += 1;
    }
    false
}

/// Whether a sequence has its mirror in two other groups.
pub fn sanshoku_doujun(hand: &[Mentsu]) -> (r: bool)
    ensures
        r == is_sanshoku_doujun(hand@),
{
    let mut i: usize = 0;
    while i < hand.len()
        invariant
            i <= hand@.len(),
            forall|k: int|
                0 <= k < i ==> !((#[trigger] hand@[k]).kind is Sequence && mirrored_twice(
                    hand@,
                    k,
                )),
        decreases hand.len() - i,
    {
        if hand[i].sequence() && has_two_mirrors(hand, i) {
            return true;
        }
        i += 1;
    }
    false
}

/// Whether no group is a sequence.
pub fn toitoi(hand: &[Mentsu]) -> (r: bool)
    ensures
        r == is_toitoi(hand@),
{
    let mut i: usize = 0;
    while i < hand.len()
        invariant
            i <= hand@.len(),
            forall|j: int| 0 <= j < i ==> !((#[trigger] hand@[j]).kind is Sequence),
        decreases hand.len() - i,
    {
        if hand[i].sequence() {
            return false;
        }
        i += 1;
    }
    true
}

/// Whether the hand holds the sequences from 1, from 4 and from 7 of
/// `suit`, in this order.
fn straight(hand: &[Mentsu], suit: Suit) -> (r: bool)
    ensures
        r == straight_in(hand@, suit),
{
    let mut seqs: u32 = 0;
    let ghost mut a: int = 0;
    let ghost mut b: int = 0;
    let mut n: usize = 0;
    while n < hand.len()
        invariant
            n <= hand@.len(),
            seqs <= 2,
            seqs == 0 ==> forall|i: int| 0 <= i < n ==> !#[trigger] run_at(hand@, i, suit, 1),
            seqs >= 1 ==> a < n && run_at(hand@, a, suit, 1) && forall|i: int|
                0 <= i < a ==> !#[trigger] run_at(hand@, i, suit, 1),
            seqs == 1 ==> forall|j: int| a < j < n ==> !#[trigger] run_at(hand@, j, suit, 4),
            seqs == 2 ==> a < b < n && run_at(hand@, b, suit, 4) && forall|j: int|
                a < j < b ==> !#[trigger] run_at(hand@, j, suit, 4),
            seqs == 2 ==> forall|k: int| b < k < n ==> !#[trigger] run_at(hand@, k, suit, 7),
        decreases hand.len() - n,
    {
        let m = hand[n];
        if m.suit() == suit {
            if let Kind::Sequence(f, _, _) = m.kind {
                if f.value == seqs * 3 + 1 {
                    assert(run_at(hand@, n as int, suit, seqs * 3 + 1));
                    if seqs == 2 {
                        assert(run_at(hand@, a, suit, 1) && run_at(hand@, b, suit, 4) && run_at(
                            hand@,
                            n as int,
                            suit,
                            7,
                        ));
                        return true;
                    }
                    proof {
                        if seqs == 0 {
                            a = n as int;
                        } else {
                            b = n as int;
                        }
                    }
                    seqs += 1;
                }
            }
        }
        n += 1;
    }
    proof {
        assert forall|i: int, j: int, k: int|
            i < j < k && #[trigger] run_at(hand@, i, suit, 1) && #[trigger] run_at(
                hand@,
                j,
                suit,
                4,
            ) implies !#[trigger] run_at(hand@, k, suit, 7) by {
            if seqs >= 1 {
                assert(a <= i);
                if seqs == 2 {
                    assert(b <= j);
                }
            }
        }
    }
    false
}

/// Whether the hand holds the sequences from 1, from 4 and from 7 of one
/// suit, in this order.
pub fn ittsuu(hand: &[Mentsu]) -> (r: bool)
    ensures
        r == is_ittsuu(hand@),
{
    let suits = Suit::all();
    let mut s: usize = 0;
    while s < 4
        invariant
            s <= 4,
            suits@ == seq![Suit::Man, Suit::Pin, Suit::Sou, Suit::Honor],
            forall|t: int| 0 <= t < s ==> !straight_in(hand@, #[trigger] suits@[t]),
        decreases 4 - s,
    {
        if straight(hand, suits[s]) {
            return true;
        }
        s += 1;
    }
    proof {
        assert forall|suit: Suit| !#[trigger] straight_in(hand@, suit) by {
            match suit {
                Suit::Man => assert(suits@[0] == suit),
                Suit::Pin => assert(suits@[1] == suit),
                Suit::Sou => assert(suits@[2] == suit),
                Suit::Honor => assert(suits@[3] == suit),
            }
        }
    }
    false
}

/// The yaku that a hand of four groups and a pair can score, in the order in
/// which they are looked for.
pub open spec fn regular_table() -> Seq<Yaku> {
    seq![
        Yaku {
            name: "Tanyao",
            desc: "All simples",
            han: 1,
            open_score: OpenScore::Illegal,
            pattern: Pattern::Tanyao,
        },
        Yaku {
            name: "Menzen-tsumo",
            desc: "Won by tsumo in menzenchin",
            han: 1,
            open_score: OpenScore::Illegal,
            pattern: Pattern::MenzenTsumo,
        },
        Yaku {
            name: "Yakuhai (Round wind)",
            desc: "A triplet/quad of round wind tiles",
            han: 1,
            open_score: OpenScore::Full,
            pattern: Pattern::RoundWind,
        },
        Yaku {
            name: "Yakuhai (Seat wind)",
            desc: "A triplet/quad of seat wind tiles",
            han: 1,
            open_score: OpenScore::Full,
            pattern: Pattern::SeatWind,
        },
        Yaku {
            name: "Chanta",
            desc: "All mentsu contain at least one terminal or honor",
            han: 2,
            open_score: OpenScore::Reduced,
            pattern: Pattern::Chanta,
        },
        Yaku {
            name: "Junchan (incompatible w chanta)",
            desc: "All mentsu contain at least one terminal",
            han: 3,
            open_score: OpenScore::Reduced,
            pattern: Pattern::Junchan,
        },
        Yaku {
            name: "Pinfu",
            desc: "Minimum fu; no triplets, non-yakuhai pair, and ryanmen wait",
            han: 1,
            open_score: OpenScore::Illegal,
            pattern: Pattern::Pinfu,
        },
        Yaku {
            name: "Yakuhai (White Dragon)",
            desc: "White dragon triplet",
            han: 1,
            open_score: OpenScore::Full,
            pattern: Pattern::WhiteDragon,
        },
        Yaku {
            name: "Yakuhai (Green Dragon)",
            desc: "Green dragon triplet",
            han: 1,
            open_score: OpenScore::Full,
            pattern: Pattern::GreenDragon,
        },
        Yaku {
            name: "Yakuhai (Red Dragon)",
            desc: "Red dragon triplet",
            han: 2,
            open_score: OpenScore::Full,
            pattern: Pattern::RedDragon,
        },
        Yaku {
            name: "Sanankou",
            desc: "Three concealed triplets",
            han: 2,
            open_score: OpenScore::Full,
            pattern: Pattern::Sanankou,
        },
        Yaku {
            name: "Ryanpeikou",
            desc: "Twin identical sequences",
            han: 3,
            open_score: OpenScore::Illegal,
            pattern: Pattern::Ryanpeikou,
        },
        Yaku {
            name: "Iipeikou",
            desc: "Identical sequences",
            han: 1,
            open_score: OpenScore::Illegal,
            pattern: Pattern::Iipeikou,
        },
        Yaku {
            name: "Sanshoku doukou",
            desc: "Three colors, same triplet",
            han: 2,
            open_score: OpenScore::Full,
            pattern: Pattern::SanshokuDoukou,
        },
        Yaku {
            name: "Sanshoku doujun",
            desc: "Three colors, same sequence",
            han: 2,
            open_score: OpenScore::Reduced,
            pattern: Pattern::SanshokuDoujun,
        },
        Yaku {
            name: "Toitoi",
            desc: "All triplets",
            han: 2,
            open_score: OpenScore::Full,
            pattern: Pattern::Toitoi,
        },
        Yaku {
            name: "Ittsuu",
            desc: "Pure straight",
            han: 2,
            open_score: OpenScore::Reduced,
            pattern: Pattern::Ittsuu,
        },
    ]
}

/// The table of the yaku that a hand of four groups and a pair can score.
pub fn regular_yaku() -> (table: Vec<Yaku>)
    ensures
        table@ == regular_table(),
{
    let table = vec![
        Yaku {
            name: "Tanyao",
            desc: "All simples",
            han: 1,
            open_score: OpenScore::Illegal,
            pattern: Pattern::Tanyao,
        },
        Yaku {
            name: "Menzen-tsumo",
            desc: "Won by tsumo in menzenchin",
            han: 1,
            open_score: OpenScore::Illegal,
            pattern: Pattern::MenzenTsumo,
        },
        Yaku {
            name: "Yakuhai (Round wind)",
            desc: "A triplet/quad of round wind tiles",
            han: 1,
            open_score: OpenScore::Full,
            pattern: Pattern::RoundWind,
        },
        Yaku {
            name: "Yakuhai (Seat wind)",
            desc: "A triplet/quad of seat wind tiles",
            han: 1,
            open_score: OpenScore::Full,
            pattern: Pattern::SeatWind,
        },
        Yaku {
            name: "Chanta",
            desc: "All mentsu contain at least one terminal or honor",
            han: 2,
            open_score: OpenScore::Reduced,
            pattern: Pattern::Chanta,
        },
        Yaku {
            name: "Junchan (incompatible w chanta)",
            desc: "All mentsu contain at least one terminal",
            han: 3,
            open_score: OpenScore::Reduced,
            pattern: Pattern::Junchan,
        },
        Yaku {
            name: "Pinfu",
            desc: "Minimum fu; no triplets, non-yakuhai pair, and ryanmen wait",
            han: 1,
            open_score: OpenScore::Illegal,
            pattern: Pattern::Pinfu,
        },
        Yaku {
            name: "Yakuhai (White Dragon)",
            desc: "White dragon triplet",
            han: 1,
            open_score: OpenScore::Full,
            pattern: Pattern::WhiteDragon,
        },
        Yaku {
            name: "Yakuhai (Green Dragon)",
            desc: "Green dragon triplet",
            han: 1,
            open_score: OpenScore::Full,
            pattern: Pattern::GreenDragon,
        },
        Yaku {
            name: "Yakuhai (Red Dragon)",
            desc: "Red dragon triplet",
            han: 2,
            open_score: OpenScore::Full,
            pattern: Pattern::RedDragon,
        },
        Yaku {
            name: "Sanankou",
            desc: "Three concealed triplets",
            han: 2,
            open_score: OpenScore::Full,
            pattern: Pattern::Sanankou,
        },
        Yaku {
            name: "Ryanpeikou",
            desc: "Twin identical sequences",
            han: 3,
            open_score: OpenScore::Illegal,
            pattern: Pattern::Ryanpeikou,
        },
        Yaku {
            name: "Iipeikou",
            desc: "Identical sequences",
            han: 1,
            open_score: OpenScore::Illegal,
            pattern: Pattern::Iipeikou,
        },
        Yaku {
            name: "Sanshoku doukou",
            desc: "Three colors, same triplet",
            han: 2,
            open_score: OpenScore::Full,
            pattern: Pattern::SanshokuDoukou,
        },
        Yaku {
            name: "Sanshoku doujun",
            desc: "Three colors, same sequence",
            han: 2,
            open_score: OpenScore::Reduced,
            pattern: Pattern::SanshokuDoujun,
        },
        Yaku {
            name: "Toitoi",
            desc: "All triplets",
            han: 2,
            open_score: OpenScore::Full,
            pattern: Pattern::Toitoi,
        },
        Yaku {
            name: "Ittsuu",
            desc: "Pure straight",
            han: 2,
            open_score: OpenScore::Reduced,
            pattern: Pattern::Ittsuu,
        },
    ];
    assert(table@ =~= regular_table());
    table
}

} // verus!
