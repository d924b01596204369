//! The fu of a hand.

use vstd::prelude::*;

use crate::mentsu::{Kind, Mentsu};
use crate::tile::WinMethod;
use crate::win_wait::WinWait;

verus! {

/// A hand is concealed unless one of its groups is open for another reason
/// than the winning tile: open, and not the group that carries the wait.
pub open spec fn is_menzenchin(hand: Seq<Mentsu>) -> bool {
    forall|i: int| 0 <= i < hand.len() ==> !((#[trigger] hand[i]).open && hand[i].win_wait is None)
}

/// The fu that every hand starts with.
pub open spec fn base_fu(method: WinMethod, menzenchin: bool) -> nat {
    match (method, menzenchin) {
        (WinMethod::Ron, true) => 30,
        (WinMethod::Tsumo, _) => 22,
        _ => 20,
    }
}

/// The fu of the wait that a group carries: two for every wait but the open
/// wait and the wait on two pairs.
pub open spec fn wait_fu(m: Mentsu) -> nat {
    match m.win_wait {
        Some(WinWait::Ryanmen) | Some(WinWait::Shanpon) | None => 0,
        Some(_) => 2,
    }
}

/// The fu of the shape of a group: four for a triplet and sixteen for a
/// quad, halved where the group is open, doubled where its tiles are honors
/// or terminals; nothing for a pair or a sequence.
pub open spec fn shape_fu(m: Mentsu) -> nat {
    let whole: nat = match m.kind {
        Kind::Triplet(_) => 4,
        Kind::Quad(_) => 16,
        _ => 0,
    };
    let shown: nat = if m.open {
        whole / 2
    } else {
        whole
    };
    if m.is_honor() || m.all_terminal() {
        shown * 2
    } else {
        shown
    }
}

/// The fu of all the groups of a hand.
pub open spec fn groups_fu(hand: Seq<Mentsu>) -> nat
    decreases hand.len(),
{
    if hand.len() == 0 {
        0
    } else {
        groups_fu(hand.drop_last()) + wait_fu(hand.last()) + shape_fu(hand.last())
    }
}

/// The next multiple of ten that is not below `n`.
pub open spec fn round_up_to_ten(n: nat) -> nat {
    if n % 10 == 0 {
        n
    } else {
        (n + (10 - n % 10)) as nat
    }
}

/// The fu of a hand.
pub open spec fn fu_of(hand: Seq<Mentsu>, method: WinMethod) -> nat {
    round_up_to_ten(base_fu(method, is_menzenchin(hand)) + groups_fu(hand))
}

/// No group is worth more than 34 fu, so a hand of `n` groups is worth at
/// most `40 + 34 * n`.
pub proof fn lemma_fu_is_bounded(hand: Seq<Mentsu>, method: WinMethod)
    ensures
        groups_fu(hand) <= 34 * hand.len(),
        fu_of(hand, method) <= 40 + 34 * hand.len(),
    decreases hand.len(),
{
    if hand.len() > 0 {
        lemma_fu_is_bounded(hand.drop_last(), method);
    }
}

/// The fu of a longer hand is not less.
proof fn lemma_groups_fu_grows(hand: Seq<Mentsu>, i: int)
    requires
        0 <= i <= hand.len(),
    ensures
        groups_fu(hand.take(i)) <= groups_fu(hand),
    decreases hand.len() - i,
{
    if i < hand.len() {
        assert(hand.take(i + 1).drop_last() =~= hand.take(i));
        lemma_groups_fu_grows(hand, i + 1);
    } else {
        assert(hand.take(i) =~= hand);
    }
}

/// Whether no group is open for another reason than the winning tile.
pub fn menzenchin(hand: &[Mentsu]) -> (r: bool)
    ensures
        r == is_menzenchin(hand@),
{
    let mut i: usize = 0;
    while i < hand.len()
        invariant
            i <= hand@.len(),
            forall|j: int| 0 <= j < i ==> !((#[trigger] hand@[j]).open && hand@[j].win_wait is None),
        decreases hand.len() - i,
    {
        if hand[i].open && hand[i].win_wait.is_none() {
            return false;
        }
        i += 1;
    }
    true
}

/// Computes the hand's fu.
pub fn fu(hand: &[Mentsu], win_method: WinMethod) -> (total: u32)
    requires
        fu_of(hand@, win_method) <= u32::MAX,
    ensures
        total == fu_of(hand@, win_method),
{
    let concealed = menzenchin(hand);
    let mut total: u32 = match (win_method, concealed) {
        (WinMethod::Ron, true) => 30,
        (WinMethod::Tsumo, _) => 22,
        _ => 20,
    };
    let ghost base = total;
    let mut i: usize = 0;
    assert(hand@.take(0) =~= Seq::<Mentsu>::empty());
    while i < hand.len()
        invariant
            i <= hand@.len(),
            base == base_fu(win_method, is_menzenchin(hand@)),
            base + groups_fu(hand@) <= u32::MAX,
            total == base + groups_fu(hand@.take(i as int)),
        decreases hand.len() - i,
    {
        let m = hand[i];
        proof {
            assert(hand@.take(i + 1).drop_last() =~= hand@.take(i as int));
            lemma_groups_fu_grows(hand@, i + 1);
        }
        match m.win_wait {
            Some(WinWait::Ryanmen) | Some(WinWait::Shanpon) | None => {},
            Some(_) => {
                total += 2;
            },
        }
        let mut pts: u32 = match m.kind {
            Kind::Triplet(_) => 4,
            Kind::Quad(_) => 16,
            _ => 0,
        };
        if m.open {
            pts /= 2;
        }
        if m.honor() || m.entirely_terminal() {
            pts *= 2;
        }
        total += pts;
        i += 1;
    }
    assert(hand@.take(hand@.len() as int) == hand@);
    if total % 10 == 0 {
        total
    } else {
        total + (10 - total % 10)  // Round to nearest 10
    }
}

} // verus!
