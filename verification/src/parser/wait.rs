//! The wait of the group that the winning tile completed.

use vstd::prelude::*;
use vstd::slice::slice_to_vec;

use crate::mentsu::{hands, Kind, Mentsu};
use crate::tile::{Tile, WinMethod};
use crate::win_wait::WinWait;

verus! {

/// The wait of a group that the tile `w` completed.
///
/// A pair was waited on with a single tile, a triplet with two pairs. In a
/// sequence the middle tile is a closed wait; an end tile is an edge wait
/// where the other end is a terminal, and an open wait otherwise. A quad is
/// never completed by the winning tile, so it has no wait.
pub open spec fn wait_on(k: Kind, w: Tile) -> Option<WinWait> {
    match k {
        Kind::Pair(_) => Some(WinWait::Tanki),
        Kind::Triplet(_) => Some(WinWait::Shanpon),
        Kind::Sequence(left, mid, right) => Some(
            if w == mid {
                WinWait::Kanchan
            } else if (w == left && right.is_terminal()) || (w == right && left.is_terminal()) {
                WinWait::Penchan
            } else {
                WinWait::Ryanmen
            },
        ),
        Kind::Quad(_) => None,
    }
}

/// Whether the tile `w` can have completed the group.
pub open spec fn completes(m: Mentsu, w: Tile) -> bool {
    m.has(w) && !(m.kind is Quad)
}

/// The group as completed by `w`: tagged with its wait, and open if the tile
/// was called.
pub open spec fn completed(m: Mentsu, w: Tile, method: WinMethod) -> Mentsu {
    Mentsu { kind: m.kind, open: method == WinMethod::Ron || m.open, win_wait: wait_on(m.kind, w) }
}

/// The variants of a hand that its first `n` groups give: one for each of
/// them that `w` can have completed, with that group annotated.
pub open spec fn variants_upto(hand: Seq<Mentsu>, w: Tile, method: WinMethod, n: int) -> Seq<
    Seq<Mentsu>,
>
    decreases n,
{
    if n <= 0 {
        Seq::empty()
    } else if completes(hand[n - 1], w) {
        variants_upto(hand, w, method, n - 1).push(
            hand.update(n - 1, completed(hand[n - 1], w, method)),
        )
    } else {
        variants_upto(hand, w, method, n - 1)
    }
}

/// The variants of one hand.
pub open spec fn variants(hand: Seq<Mentsu>, w: Tile, method: WinMethod) -> Seq<Seq<Mentsu>> {
    variants_upto(hand, w, method, hand.len() as int)
}

/// The variants of the hands of a list, hand after hand.
pub open spec fn all_variants(hs: Seq<Seq<Mentsu>>, w: Tile, method: WinMethod) -> Seq<
    Seq<Mentsu>,
>
    decreases hs.len(),
{
    if hs.len() == 0 {
        Seq::empty()
    } else {
        all_variants(hs.drop_last(), w, method) + variants(hs.last(), w, method)
    }
}

/// A sequence that holds the winning tile gets exactly one of the three
/// sequence waits: the closed wait if and only if the tile is the middle one,
/// the edge wait if and only if it is an end and the other end is a terminal,
/// the open wait in every other case.
pub proof fn sequence_wait_is_classified(left: Tile, mid: Tile, right: Tile, w: Tile)
    requires
        w == left || w == mid || w == right,
    ensures
        ({
            let wait = wait_on(Kind::Sequence(left, mid, right), w);
            let edge = w != mid && ((w == left && right.is_terminal()) || (w == right
                && left.is_terminal()));
            &&& wait == Some(WinWait::Kanchan) || wait == Some(WinWait::Penchan) || wait == Some(
                WinWait::Ryanmen,
            )
            &&& wait == Some(WinWait::Kanchan) <==> w == mid
            &&& wait == Some(WinWait::Penchan) <==> edge
            &&& wait == Some(WinWait::Ryanmen) <==> w != mid && !edge
        }),
{
}

/// Every variant of a hand is the hand with one group annotated: a group
/// that holds the winning tile. The other groups are as they were.
pub proof fn variant_marks_one_group(hand: Seq<Mentsu>, w: Tile, method: WinMethod, v: Seq<Mentsu>)
    requires
        variants(hand, w, method).contains(v),
    ensures
        exists|i: int|
            0 <= i < hand.len() && completes(#[trigger] hand[i], w) && v == hand.update(
                i,
                completed(hand[i], w, method),
            ),
{
    lemma_variants_upto(hand, w, method, hand.len() as int, v);
}

/// Every variant that the first `n` groups give marks one of them.
proof fn lemma_variants_upto(hand: Seq<Mentsu>, w: Tile, method: WinMethod, n: int, v: Seq<Mentsu>)
    requires
        0 <= n <= hand.len(),
        variants_upto(hand, w, method, n).contains(v),
    ensures
        exists|i: int|
            0 <= i < n && completes(#[trigger] hand[i], w) && v == hand.update(
                i,
                completed(hand[i], w, method),
            ),
    decreases n,
{
    if n > 0 {
        let all = variants_upto(hand, w, method, n);
        let j = choose|j: int| 0 <= j < all.len() && all[j] == v;
        let earlier = variants_upto(hand, w, method, n - 1);
        if j < earlier.len() {
            assert(earlier[j] == v);
            lemma_variants_upto(hand, w, method, n - 1, v);
        } else {
            assert(completes(hand[n - 1], w));
        }
    }
}

/// The wait of a group that the tile `win_tile` completed; `None` for a
/// quad.
pub fn classify_wait(kind: Kind, win_tile: Tile) -> (wait: Option<WinWait>)
    ensures
        wait == wait_on(kind, win_tile),
{
    match kind {
        // Tanki
        Kind::Pair(_) => Some(WinWait::Tanki),
        // Shanpon
        Kind::Triplet(_) => Some(WinWait::Shanpon),
        Kind::Sequence(left, mid, right) => {
            if win_tile == mid {
                Some(WinWait::Kanchan)
            } else if (win_tile == left && right.terminal()) || (win_tile == right
                && left.terminal()) {
                Some(WinWait::Penchan)
            } else {
                Some(WinWait::Ryanmen)
            }
        },
        Kind::Quad(_) => None,
    }
}

/// The variants of one hand: for each group that holds the winning tile, a
/// copy of the hand with that group tagged with its wait, and marked open if
/// the tile was called.
pub fn annotate(hand: &[Mentsu], win_tile: Tile, win_method: WinMethod) -> (out: Vec<Vec<Mentsu>>)
    ensures
        hands(out@) == variants(hand@, win_tile, win_method),
{
    let mut out: Vec<Vec<Mentsu>> = Vec::new();
    let mut i: usize = 0;
    assert(hands(out@) =~~= variants_upto(hand@, win_tile, win_method, 0));
    while i < hand.len()
        invariant
            i <= hand@.len(),
            hands(out@) == variants_upto(hand@, win_tile, win_method, i as int),
        decreases hand.len() - i,
    {
        let m = hand[i];
        let ghost before = out@;
        if m.contains(win_tile) {
            match classify_wait(m.kind, win_tile) {
                Some(wait) => {
                    // Push a copy of this hand with this mentsu as open.
                    let mut h = slice_to_vec(hand);
                    let mut g = m;
                    if win_method == WinMethod::Ron {
                        g.set_open(true);
                    }
                    g.set_win_wait(Some(wait));
                    h.set(i, g);
                    out.push(h);
                    assert(g == completed(m, win_tile, win_method));
                    assert(hands(out@) =~~= hands(before).push(
                        hand@.update(i as int, completed(m, win_tile, win_method)),
                    ));
                },
                None => {},
            }
        }
        i += 1;
    }
    out
}

} // verus!
