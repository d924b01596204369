//! Reading a hand from its notation, and interpreting it.

use vstd::prelude::*;
use vstd::relations::sorted_by;
use vstd::string::StrSliceExecFns;

use crate::mentsu::{hands, Mentsu};
use crate::tile::{tile_order, tile_order_is_total, Suit, Tile};

pub mod counts;
pub mod dedup;
pub mod i13s;
pub mod outcome;
pub mod split;
pub mod wait;
pub mod winning;

pub use crate::tile::WinMethod;
pub use crate::win_wait::WinWait;

verus! {

/// A hand as it was written down: its tiles in tile order, the winning tile
/// among them, and how that tile was obtained.
pub struct Hand {
    pub tiles: Vec<Tile>,
    pub win_tile: Tile,
    pub win_method: WinMethod,
}

/// A digit that names a rank: `1` to `9`.
pub open spec fn is_rank(c: char) -> bool {
    '1' <= c <= '9'
}

/// The rank that a digit names.
pub open spec fn rank_of(c: char) -> u32 {
    (c as u32 - '0' as u32) as u32
}

/// A letter that names a suit.
pub open spec fn is_suit_letter(c: char) -> bool {
    Suit::from_letter(c) is Some
}

/// The suit that a letter names.
pub open spec fn suit_of(c: char) -> Suit {
    match Suit::from_letter(c) {
        Some(suit) => suit,
        None => Suit::Honor,
    }
}

/// White space among the characters that a hand is written in.
pub open spec fn is_space(c: char) -> bool {
    c == ' ' || '\t' <= c <= '\r'
}

/// The suit of the rank written at position `k`: the first character behind
/// it that is not a rank names it.
pub open spec fn suit_after(s: Seq<char>, k: int) -> Suit
    decreases s.len() - k,
{
    if k + 1 >= s.len() || k < 0 {
        Suit::Honor
    } else if is_rank(s[k + 1]) {
        suit_after(s, k + 1)
    } else {
        suit_of(s[k + 1])
    }
}

/// The tiles written in the first `n` characters, in the order in which
/// they are written: one for each rank.
pub open spec fn written(s: Seq<char>, n: int) -> Seq<Tile>
    decreases n,
{
    if n <= 0 {
        Seq::empty()
    } else if is_rank(s[n - 1]) {
        written(s, n - 1).push(Tile { value: rank_of(s[n - 1]), suit: suit_after(s, n - 1) })
    } else {
        written(s, n - 1)
    }
}

/// A hand in the notation that `parse` reads: runs of ranks, each run
/// followed by the letter of its suit, as in `123m44p`. Characters between
/// a suit letter and the next rank are skipped. The last rank and letter
/// are the winning tile; white space in front of them says that the tile
/// was called. Only ASCII is read, and `0` names no rank.
pub open spec fn well_written(s: Seq<char>) -> bool {
    &&& s.len() >= 2
    &&& forall|k: int| 0 <= k < s.len() ==> (#[trigger] s[k]) <= '\u{7f}' && s[k] != '0'
    &&& is_rank(s[s.len() - 2])
    &&& is_suit_letter(s[s.len() - 1])
    &&& forall|k: int|
        0 < k < s.len() && is_rank(s[k - 1]) && !is_rank(#[trigger] s[k]) ==> is_suit_letter(s[k])
}

/// The winning tile that the notation names.
pub open spec fn written_win_tile(s: Seq<char>) -> Tile {
    Tile { value: rank_of(s[s.len() - 2]), suit: suit_of(s[s.len() - 1]) }
}

/// How the notation says the winning tile was obtained.
pub open spec fn written_win_method(s: Seq<char>) -> WinMethod {
    if s.len() >= 3 && is_space(s[s.len() - 3]) {
        WinMethod::Ron
    } else {
        WinMethod::Tsumo
    }
}

/// What `parse` makes of well-written notation.
pub open spec fn reads_as(s: Seq<char>, hand: Hand) -> bool {
    &&& sorted_by(hand.tiles@, tile_order())
    &&& hand.tiles@.to_multiset() == written(s, s.len() as int).to_multiset()
    &&& hand.win_tile == written_win_tile(s)
    &&& hand.win_method == written_win_method(s)
}

/// Whether the character is a rank digit.
fn rank_digit(c: char) -> (r: bool)
    ensures
        r == is_rank(c),
{
    '1' <= c && c <= '9'
}

/// Whether the character is white space.
fn space(c: char) -> (r: bool)
    ensures
        r == is_space(c),
{
    c == ' ' || ('\t' <= c && c <= '\r')
}

/// The rank behind the one at `p` has the same suit, and the first
/// character that is no rank names the suit of the ranks in front of it.
proof fn lemma_suit_after(s: Seq<char>, p: int, k: int)
    requires
        0 <= p < k < s.len(),
        forall|j: int| p < j < k ==> is_rank(#[trigger] s[j]),
        !is_rank(s[k]),
    ensures
        suit_after(s, p) == suit_of(s[k]),
    decreases k - p,
{
    if p + 1 < k {
        lemma_suit_after(s, p + 1, k);
    }
}

/// The tiles in tile order.
pub fn sort_tiles(tiles: &[Tile]) -> (sorted: Vec<Tile>)
    ensures
        sorted_by(sorted@, tile_order()),
        sorted@.to_multiset() == tiles@.to_multiset(),
        sorted@.len() == tiles@.len(),
{
    let mut sorted: Vec<Tile> = Vec::new();
    let mut k: usize = 0;
    proof {
        tile_order_is_total();
        assert(tiles@.take(0) =~= sorted@);
    }
    while k < tiles.len()
        invariant
            k <= tiles@.len(),
            sorted_by(sorted@, tile_order()),
            sorted@.to_multiset() == tiles@.take(k as int).to_multiset(),
        decreases tiles.len() - k,
    {
        let t = tiles[k];
        let mut p: usize = 0;
        while p < sorted.len() && !t.precedes(sorted[p])
            invariant
                p <= sorted@.len(),
                forall|j: int| 0 <= j < p ==> !t.before(#[trigger] sorted@[j]),
            decreases sorted.len() - p,
        {
            p += 1;
        }
        let ghost before = sorted@;
        sorted.insert(p, t);
        proof {
            let r = tile_order();
            assert(tiles@.take(k + 1) =~= tiles@.take(k as int).push(t));
            vstd::seq_lib::to_multiset_build(tiles@.take(k as int), t);
            vstd::seq_lib::to_multiset_insert(before, p as int, t);
            assert forall|i: int, j: int| 0 <= i < j < sorted@.len() implies #[trigger] r(
                sorted@[i],
                sorted@[j],
            ) by {
                let i0 = if i < p {
                    i
                } else {
                    i - 1
                };
                let j0 = if j < p {
                    j
                } else {
                    j - 1
                };
                if j == p {
                    assert(sorted@[i] == before[i]);
                } else if i == p {
                    assert(sorted@[j] == before[j0]);
                    assert(t.before(before[p as int]));
                    assert(r(before[p as int], before[j0]));
                } else {
                    assert(sorted@[i] == before[i0]);
                    assert(sorted@[j] == before[j0]);
                    assert(r(before[i0], before[j0]));
                }
            }
        }
        k += 1;
    }
    proof {
        assert(tiles@.take(tiles@.len() as int) == tiles@);
        sorted@.to_multiset_ensures();
        tiles@.to_multiset_ensures();
    }
    sorted
}

/// Whether the characters are a hand in the notation that `parse` reads.
fn well_formed(chars: &[char]) -> (r: bool)
    ensures
        r == well_written(chars@),
{
    let n = chars.len();
    if n < 2 {
        return false;
    }
    if !rank_digit(chars[n - 2]) {
        return false;
    }
    if Suit::from_char(chars[n - 1]).is_none() {
        return false;
    }
    let mut k: usize = 0;
    while k < n
        invariant
            n == chars@.len(),
            k <= n,
            forall|j: int| 0 <= j < k ==> (#[trigger] chars@[j]) <= '\u{7f}' && chars@[j] != '0',
            forall|j: int|
                0 < j < k && is_rank(chars@[j - 1]) && !is_rank(#[trigger] chars@[j])
                    ==> is_suit_letter(chars@[j]),
        decreases n - k,
    {
        let c = chars[k];
        if c > '\u{7f}' || c == '0' {
            return false;
        }
        if k > 0 && rank_digit(chars[k - 1]) && !rank_digit(c) && Suit::from_char(c).is_none() {
            return false;
        }
        k += 1;
    }
    true
}

/// Reads a hand from characters in the notation.
fn read(chars: &[char]) -> (hand: Hand)
    requires
        well_written(chars@),
    ensures
        reads_as(chars@, hand),
        hand.tiles@.contains(hand.win_tile),
        forall|i: int| 0 <= i < hand.tiles@.len() ==> (#[trigger] hand.tiles@[i]).well_formed(),
{
    let ghost s = chars@;
    let n = chars.len();
    let mut suit_vals: Vec<u32> = Vec::new();
    let mut tiles: Vec<Tile> = Vec::new();

    let win_suit = match Suit::from_char(chars[n - 1]) {
        Some(suit) => suit,
        None => Suit::Honor,
    };
    let win_tile = Tile::new(chars[n - 2] as u32 - '0' as u32, win_suit);
    let win_method = if n >= 3 && space(chars[n - 3]) {
        WinMethod::Ron
    } else {
        WinMethod::Tsumo
    };

    let mut k: usize = 0;
    while k < n
        invariant
            s == chars@,
            n == s.len(),
            k <= n,
            well_written(s),
            suit_vals@.len() <= k,
            tiles@ == written(s, k - suit_vals@.len()),
            forall|j: int|
                0 <= j < suit_vals@.len() ==> is_rank(#[trigger] s[k - suit_vals@.len() + j])
                    && suit_vals@[j] == rank_of(s[k - suit_vals@.len() + j]),
        decreases n - k,
    {
        let c = chars[k];
        let ghost start = k - suit_vals@.len();
        if rank_digit(c) {
            suit_vals.push(c as u32 - '0' as u32);
            assert forall|j: int| 0 <= j < suit_vals@.len() implies is_rank(#[trigger] s[start + j])
                && suit_vals@[j] == rank_of(s[start + j]) by {
                if j == suit_vals@.len() - 1 {
                    assert(s[start + j] == c);
                }
            }
        } else {
            if suit_vals.len() > 0 {
                assert(is_rank(s[k - 1])) by {
                    assert(is_rank(s[start + (suit_vals@.len() - 1)]));
                }
                let suit = match Suit::from_char(c) {
                    Some(suit) => suit,
                    None => Suit::Honor,
                };
                let mut j: usize = 0;
                while j < suit_vals.len()
                    invariant
                        s == chars@,
                        n == s.len(),
                        k < n,
                        start == k - suit_vals@.len(),
                        j <= suit_vals@.len() <= k,
                        !is_rank(s[k as int]),
                        suit == suit_of(s[k as int]),
                        tiles@ == written(s, start + j),
                        forall|i: int|
                            0 <= i < suit_vals@.len() ==> is_rank(#[trigger] s[start + i])
                                && suit_vals@[i] == rank_of(s[start + i]),
                    decreases suit_vals.len() - j,
                {
                    proof {
                        assert(is_rank(s[start + j]));
                        assert forall|i: int| start + j < i < k implies is_rank(#[trigger] s[i]) by {
                            assert(is_rank(s[start + (i - start)]));
                        }
                        lemma_suit_after(s, start + j, k as int);
                    }
                    tiles.push(Tile::new(suit_vals[j], suit));
                    j += 1;
                }
                suit_vals.clear();
            }
            assert(written(s, k + 1) == written(s, k as int));
        }
        k += 1;
    }
    proof {
        if suit_vals@.len() > 0 {
            assert(is_rank(s[n - suit_vals@.len() + (suit_vals@.len() - 1)]));
        }
        lemma_written_tiles_are_well_formed(s, n as int);
    }
    let sorted = sort_tiles(tiles.as_slice());
    proof {
        sorted@.to_multiset_ensures();
        tiles@.to_multiset_ensures();
        assert forall|i: int| 0 <= i < sorted@.len() implies (#[trigger] sorted@[i]).well_formed() by {
            assert(sorted@.contains(sorted@[i]));
            assert(tiles@.to_multiset().count(sorted@[i]) > 0);
        }
        lemma_win_tile_is_written(s);
        assert(tiles@.to_multiset().count(win_tile) > 0);
        assert(sorted@.to_multiset().count(win_tile) > 0);
    }
    Hand { tiles: sorted, win_tile, win_method }
}

/// The winning tile is one of the tiles that the notation names: the last.
pub proof fn lemma_win_tile_is_written(s: Seq<char>)
    requires
        well_written(s),
    ensures
        written(s, s.len() as int).contains(written_win_tile(s)),
{
    let n = s.len() as int;
    assert(!is_rank(s[n - 1]));
    assert(written(s, n) == written(s, n - 1));
    assert(suit_after(s, n - 2) == suit_of(s[n - 1]));
    assert(written(s, n - 1).last() == written_win_tile(s));
    assert(written(s, n)[written(s, n).len() - 1] == written_win_tile(s));
}

/// Every tile that the notation names has a rank from 1 to 9.
pub proof fn lemma_written_tiles_are_well_formed(s: Seq<char>, n: int)
    ensures
        forall|i: int| 0 <= i < written(s, n).len() ==> (#[trigger] written(s, n)[i]).well_formed(),
    decreases n,
{
    if n > 0 {
        lemma_written_tiles_are_well_formed(s, n - 1);
        assert forall|i: int| 0 <= i < written(s, n).len() implies (#[trigger] written(
            s,
            n,
        )[i]).well_formed() by {
            if i < written(s, n - 1).len() {
                assert(written(s, n)[i] == written(s, n - 1)[i]);
            }
        }
    }
}

/// Reads a hand from its notation.
pub fn parse(s: &str) -> (hand: Hand)
    requires
        well_written(s@),
    ensures
        reads_as(s@, hand),
        hand.tiles@.contains(hand.win_tile),
        forall|i: int| 0 <= i < hand.tiles@.len() ==> (#[trigger] hand.tiles@[i]).well_formed(),
{
    let chars = chars_of(s);
    read(chars.as_slice())
}

/// Reads a hand from its notation, or finds that the text is no such
/// notation.
pub fn try_parse(s: &str) -> (found: Option<Hand>)
    ensures
        found is Some <==> well_written(s@),
        found matches Some(hand) ==> reads_as(s@, hand) && hand.tiles@.contains(hand.win_tile)
            && forall|i: int|
            0 <= i < hand.tiles@.len() ==> (#[trigger] hand.tiles@[i]).well_formed(),
{
    let chars = chars_of(s);
    if well_formed(chars.as_slice()) {
        Some(read(chars.as_slice()))
    } else {
        None
    }
}

/// Every scoring-ready reading of a hand that was won on `win_tile`.
pub fn interpret(hand_tiles: &[Tile], win_tile: Tile, win_method: WinMethod) -> (i13s: Vec<
    Vec<Mentsu>,
>)
    ensures
        hands(i13s@) == i13s::interpretations(
            hand_tiles@.to_multiset(),
            win_tile,
            win_method,
        ),
        hands(i13s@).no_duplicates(),
        forall|j: int|
            0 <= j < i13s@.len() ==> winning::is_winning((#[trigger] i13s@[j])@)
                && crate::mentsu::tiles_of(i13s@[j]@).to_multiset() == hand_tiles@.to_multiset(),
{
    i13s::build(hand_tiles, win_tile, win_method)
}

/// The characters of a string.
fn chars_of(s: &str) -> (chars: Vec<char>)
    ensures
        chars@ == s@,
{
    let n = s.unicode_len();
    let mut chars: Vec<char> = Vec::new();
    let mut k: usize = 0;
    while k < n
        invariant
            n == s@.len(),
            k <= n,
            chars@ == s@.take(k as int),
        decreases n - k,
    {
        chars.push(s.get_char(k));
        assert(s@.take(k + 1) =~= s@.take(k as int).push(s@[k as int]));
        k += 1;
    }
    assert(s@.take(n as int) == s@);
    chars
}

} // verus!
