use riichi::mentsu::{Kind, Mentsu};
use riichi::parser::dedup::{dedupe, holds_hand, same_hand, sort_hand};
use riichi::parser::i13s::{basic_to_open, build};
use riichi::parser::interpret;
use riichi::parser::wait::{annotate, classify_wait};
use riichi::tile::{Suit, Tile, WinMethod};
use riichi::win_wait::WinWait;

fn t(v: u32, s: Suit) -> Tile {
    Tile::new(v, s)
}

fn tiles_of(suit: Suit, values: &[u32]) -> Vec<Tile> {
    values.iter().map(|v| Tile::new(*v, suit)).collect()
}

fn pair(v: u32, s: Suit) -> Mentsu {
    Mentsu::new(Kind::Pair(t(v, s)))
}

fn triplet(v: u32, s: Suit) -> Mentsu {
    Mentsu::new(Kind::Triplet(t(v, s)))
}

fn quad(v: u32, s: Suit) -> Mentsu {
    Mentsu::new(Kind::Quad(t(v, s)))
}

fn run(v: u32, s: Suit) -> Mentsu {
    Mentsu::new(Kind::Sequence(t(v, s), t(v + 1, s), t(v + 2, s)))
}

fn marked(m: Mentsu, open: bool, wait: WinWait) -> Mentsu {
    Mentsu { kind: m.kind, open, win_wait: Some(wait) }
}

fn same(a: &[Mentsu], b: &[Mentsu]) -> bool {
    a.len() == b.len() && a.iter().zip(b.iter()).all(|(x, y)| x.identical(*y))
}

fn seq(a: u32) -> Kind {
    Kind::Sequence(t(a, Suit::Pin), t(a + 1, Suit::Pin), t(a + 2, Suit::Pin))
}

#[test]
fn middle_tile_is_a_closed_wait() {
    let mut tiles = tiles_of(Suit::Man, &[1, 1, 1, 3, 4, 5, 7, 7, 7, 9, 9, 9]);
    tiles.extend(tiles_of(Suit::Honor, &[2, 2]));
    let out = build(&tiles, t(4, Suit::Man), WinMethod::Tsumo);
    assert_eq!(out.len(), 1);
    let found = out[0].iter().find(|m| m.sequence()).unwrap();
    assert_eq!(found.win_wait, Some(WinWait::Kanchan));
    assert_ne!(found.win_wait, Some(WinWait::Ryanmen));
    assert!(!found.open);
    assert_eq!(out[0].iter().filter(|m| m.win_wait.is_some()).count(), 1);
}

#[test]
fn three_behind_one_and_two_is_an_edge_wait() {
    let mut tiles = tiles_of(Suit::Man, &[1, 2, 3, 5, 5, 5, 7, 7, 7, 9, 9, 9]);
    tiles.extend(tiles_of(Suit::Honor, &[2, 2]));
    let out = build(&tiles, t(3, Suit::Man), WinMethod::Ron);
    assert_eq!(out.len(), 1);
    let found = out[0].iter().find(|m| m.sequence()).unwrap();
    assert_eq!(found.win_wait, Some(WinWait::Penchan));
    assert!(found.open);
    assert_eq!(out[0].iter().filter(|m| m.open).count(), 1);
}

#[test]
fn second_pair_becomes_a_triplet_on_two_pairs() {
    let mut tiles = tiles_of(Suit::Man, &[1, 2, 3, 4, 5, 6, 7, 8, 9]);
    tiles.extend(tiles_of(Suit::Pin, &[2, 2, 3, 3, 3]));
    let out = build(&tiles, t(3, Suit::Pin), WinMethod::Tsumo);
    assert_eq!(out.len(), 1);
    let wanted = vec![
        marked(triplet(3, Suit::Pin), false, WinWait::Shanpon),
        run(1, Suit::Man),
        run(4, Suit::Man),
        run(7, Suit::Man),
        pair(2, Suit::Pin),
    ];
    assert!(same(&out[0], &wanted));
}

#[test]
fn winning_tile_in_two_groups_gives_two_variants() {
    let mut tiles = tiles_of(Suit::Man, &[1, 2, 3, 3, 3, 4, 5, 6, 7, 8, 9]);
    tiles.extend(tiles_of(Suit::Honor, &[5, 5, 5]));
    let out = build(&tiles, t(3, Suit::Man), WinMethod::Tsumo);
    let with_pair = vec![
        triplet(5, Suit::Honor),
        run(1, Suit::Man),
        run(4, Suit::Man),
        run(7, Suit::Man),
        marked(pair(3, Suit::Man), false, WinWait::Tanki),
    ];
    let with_run = vec![
        triplet(5, Suit::Honor),
        marked(run(1, Suit::Man), false, WinWait::Penchan),
        run(4, Suit::Man),
        run(7, Suit::Man),
        pair(3, Suit::Man),
    ];
    assert_eq!(out.len(), 2);
    assert!(same(&out[0], &with_run));
    assert!(same(&out[1], &with_pair));
}

#[test]
fn same_tiles_give_the_same_answer() {
    let mut tiles = tiles_of(Suit::Sou, &[1, 1, 1, 2, 2, 2, 3, 3, 3]);
    tiles.extend(tiles_of(Suit::Man, &[2, 2]));
    tiles.extend(tiles_of(Suit::Honor, &[1, 1, 1]));
    let first = interpret(&tiles, t(1, Suit::Honor), WinMethod::Tsumo);
    let second = interpret(&tiles, t(1, Suit::Honor), WinMethod::Tsumo);
    assert_eq!(first.len(), 2);
    assert_eq!(first.len(), second.len());
    for (a, b) in first.iter().zip(second.iter()) {
        assert!(same(a, b));
    }
    tiles.reverse();
    let third = interpret(&tiles, t(1, Suit::Honor), WinMethod::Tsumo);
    assert_eq!(first.len(), third.len());
    for (a, b) in first.iter().zip(third.iter()) {
        assert!(same(a, b));
    }
}

#[test]
fn incomplete_hand_has_no_interpretation() {
    let tiles = tiles_of(Suit::Man, &[1, 2, 3, 4, 5, 6, 7, 8, 9, 1, 3, 5, 7, 9]);
    assert!(build(&tiles, t(9, Suit::Man), WinMethod::Ron).is_empty());
    assert!(build(&[], t(9, Suit::Man), WinMethod::Ron).is_empty());
}

#[test]
fn absent_winning_tile_gives_no_variant() {
    let hand = vec![
        run(1, Suit::Man),
        run(4, Suit::Man),
        run(7, Suit::Man),
        triplet(1, Suit::Pin),
        pair(2, Suit::Honor),
    ];
    assert!(annotate(&hand, t(9, Suit::Sou), WinMethod::Ron).is_empty());
    assert!(basic_to_open(&[hand], t(9, Suit::Sou), WinMethod::Ron).is_empty());
}

#[test]
fn quad_carries_no_wait() {
    assert_eq!(classify_wait(Kind::Quad(t(5, Suit::Man)), t(5, Suit::Man)), None);
    let hand = vec![
        quad(5, Suit::Man),
        run(1, Suit::Pin),
        run(4, Suit::Pin),
        run(7, Suit::Pin),
        pair(2, Suit::Honor),
    ];
    assert!(annotate(&hand, t(5, Suit::Man), WinMethod::Tsumo).is_empty());
}

#[test]
fn sequence_waits_are_told_apart() {
    assert_eq!(classify_wait(seq(3), t(4, Suit::Pin)), Some(WinWait::Kanchan));
    assert_eq!(classify_wait(seq(1), t(2, Suit::Pin)), Some(WinWait::Kanchan));
    assert_eq!(classify_wait(seq(7), t(8, Suit::Pin)), Some(WinWait::Kanchan));
    assert_eq!(classify_wait(seq(1), t(3, Suit::Pin)), Some(WinWait::Penchan));
    assert_eq!(classify_wait(seq(7), t(7, Suit::Pin)), Some(WinWait::Penchan));
    assert_eq!(classify_wait(seq(1), t(1, Suit::Pin)), Some(WinWait::Ryanmen));
    assert_eq!(classify_wait(seq(7), t(9, Suit::Pin)), Some(WinWait::Ryanmen));
    assert_eq!(classify_wait(seq(3), t(3, Suit::Pin)), Some(WinWait::Ryanmen));
    assert_eq!(classify_wait(seq(3), t(5, Suit::Pin)), Some(WinWait::Ryanmen));
    assert_eq!(classify_wait(seq(2), t(2, Suit::Pin)), Some(WinWait::Ryanmen));
    assert_eq!(classify_wait(seq(6), t(8, Suit::Pin)), Some(WinWait::Ryanmen));
}

#[test]
fn pair_and_triplet_waits() {
    assert_eq!(classify_wait(Kind::Pair(t(5, Suit::Man)), t(5, Suit::Man)), Some(WinWait::Tanki));
    assert_eq!(
        classify_wait(Kind::Triplet(t(1, Suit::Honor)), t(1, Suit::Honor)),
        Some(WinWait::Shanpon)
    );
}

#[test]
fn annotate_marks_one_group_per_variant() {
    let hand = vec![
        run(1, Suit::Man),
        run(2, Suit::Man),
        run(3, Suit::Man),
        triplet(1, Suit::Pin),
        pair(3, Suit::Man),
    ];
    let out = annotate(&hand, t(3, Suit::Man), WinMethod::Ron);
    assert_eq!(out.len(), 4);
    let waits = [WinWait::Penchan, WinWait::Kanchan, WinWait::Ryanmen, WinWait::Tanki];
    let places = [0, 1, 2, 4];
    for (k, variant) in out.iter().enumerate() {
        for (i, m) in variant.iter().enumerate() {
            if i == places[k] {
                assert!(m.identical(marked(hand[i], true, waits[k])));
            } else {
                assert!(m.identical(hand[i]));
            }
        }
    }
}

#[test]
fn self_draw_leaves_the_group_closed() {
    let hand = vec![pair(3, Suit::Man)];
    let out = annotate(&hand, t(3, Suit::Man), WinMethod::Tsumo);
    assert_eq!(out.len(), 1);
    assert!(out[0][0].identical(marked(hand[0], false, WinWait::Tanki)));
    let called = vec![Mentsu { kind: Kind::Pair(t(3, Suit::Man)), open: true, win_wait: None }];
    let out = annotate(&called, t(3, Suit::Man), WinMethod::Tsumo);
    assert!(out[0][0].open);
}

#[test]
fn sort_hand_agrees_with_the_derived_order() {
    let groups = vec![
        pair(5, Suit::Man),
        run(4, Suit::Sou),
        quad(1, Suit::Honor),
        triplet(9, Suit::Pin),
        triplet(9, Suit::Man),
        run(4, Suit::Man),
        marked(run(4, Suit::Man), true, WinWait::Ryanmen),
        marked(run(4, Suit::Man), false, WinWait::Kanchan),
        marked(run(4, Suit::Man), false, WinWait::Ryanmen),
        Mentsu { kind: Kind::Triplet(t(2, Suit::Pin)), open: true, win_wait: None },
        marked(triplet(2, Suit::Pin), false, WinWait::Shanpon),
        triplet(2, Suit::Pin),
        pair(1, Suit::Honor),
        marked(pair(1, Suit::Honor), false, WinWait::Tanki),
        run(3, Suit::Man),
        quad(1, Suit::Man),
        Mentsu::new(Kind::Sequence(t(4, Suit::Man), t(5, Suit::Man), t(7, Suit::Man))),
        Mentsu::new(Kind::Sequence(t(4, Suit::Man), t(6, Suit::Man), t(6, Suit::Man))),
        marked(pair(5, Suit::Man), true, WinWait::Penchan),
    ];
    let mine = sort_hand(&groups);
    let mut theirs = groups.clone();
    theirs.sort();
    assert!(same(&mine, &theirs));
    for a in &groups {
        for b in &groups {
            assert_eq!(a.precedes(*b), a < b);
            assert_eq!(a.kind.precedes(b.kind), a.kind < b.kind);
        }
    }
}

#[test]
fn dedupe_collapses_orders_and_keeps_annotations_apart() {
    let a = vec![run(1, Suit::Man), pair(2, Suit::Man), triplet(3, Suit::Man)];
    let b = vec![triplet(3, Suit::Man), run(1, Suit::Man), pair(2, Suit::Man)];
    let c = vec![
        triplet(3, Suit::Man),
        run(1, Suit::Man),
        marked(pair(2, Suit::Man), false, WinWait::Tanki),
    ];
    let d = vec![
        triplet(3, Suit::Man),
        run(1, Suit::Man),
        marked(pair(2, Suit::Man), true, WinWait::Tanki),
    ];
    let out = dedupe(&[a.clone(), b, c.clone(), a.clone(), d.clone(), c.clone()]);
    assert_eq!(out.len(), 3);
    assert!(same(&out[0], &[triplet(3, Suit::Man), run(1, Suit::Man), pair(2, Suit::Man)]));
    assert!(same(&out[1], &sort_hand(&c)));
    assert!(same(&out[2], &sort_hand(&d)));
}

#[test]
fn dedupe_twice_changes_nothing() {
    let mut tiles = tiles_of(Suit::Man, &[1, 1, 1, 2, 2, 2, 3, 3, 3, 4, 4, 4]);
    tiles.extend(tiles_of(Suit::Honor, &[7, 7]));
    let basic = riichi::parser::i13s::decompose_and_filter(&tiles);
    let mut variants = Vec::new();
    for hand in &basic {
        variants.extend(annotate(hand, t(2, Suit::Man), WinMethod::Ron));
    }
    let once = dedupe(&variants);
    let twice = dedupe(&once);
    assert!(!once.is_empty());
    assert!(once.len() <= variants.len());
    assert_eq!(once.len(), twice.len());
    for (a, b) in once.iter().zip(twice.iter()) {
        assert!(same(a, b));
    }
    for (i, a) in once.iter().enumerate() {
        for b in &once[i + 1..] {
            assert!(!same(a, b));
        }
    }
}

#[test]
fn hands_compare_with_their_annotations() {
    let plain = vec![pair(2, Suit::Man)];
    let tagged = vec![marked(pair(2, Suit::Man), false, WinWait::Tanki)];
    assert!(same_hand(&plain, &plain));
    assert!(!same_hand(&plain, &tagged));
    assert!(!same_hand(&plain, &[]));
    assert!(plain[0] == tagged[0]);
    assert!(holds_hand(&[tagged.clone(), plain.clone()], &plain));
    assert!(!holds_hand(&[tagged], &plain));
}
