use riichi::mentsu::{Kind, Mentsu};
use riichi::parser::{interpret, parse, try_parse, Hand};
use riichi::player_state::{PlayerState, Wind};
use riichi::score::{fu, menzenchin};
use riichi::tile::{Suit, Tile, WinMethod};
use riichi::win_wait::WinWait;
use riichi::yaku::weird::{chiitoi, kokushi, occurrences, TilePattern};
use riichi::yaku::{
    conditional_yaku, regular_yaku, valid_yaku, weird_yaku_and_yakuman, yakuman, OpenScore,
    Pattern, Yaku,
};

fn t(v: u32, s: Suit) -> Tile {
    Tile::new(v, s)
}

fn tiles_of(suit: Suit, values: &[u32]) -> Vec<Tile> {
    values.iter().map(|v| Tile::new(*v, suit)).collect()
}

fn pair(v: u32, s: Suit) -> Mentsu {
    Mentsu::new(Kind::Pair(t(v, s)))
}

fn triplet(v: u32, s: Suit) -> Mentsu {
    Mentsu::new(Kind::Triplet(t(v, s)))
}

fn quad(v: u32, s: Suit) -> Mentsu {
    Mentsu::new(Kind::Quad(t(v, s)))
}

fn run(v: u32, s: Suit) -> Mentsu {
    Mentsu::new(Kind::Sequence(t(v, s), t(v + 1, s), t(v + 2, s)))
}

fn open(m: Mentsu) -> Mentsu {
    Mentsu { kind: m.kind, open: true, win_wait: m.win_wait }
}

fn won(m: Mentsu, wait: WinWait) -> Mentsu {
    Mentsu { kind: m.kind, open: m.open, win_wait: Some(wait) }
}

fn player() -> PlayerState {
    PlayerState { seat_wind: Wind::South, round_wind: Wind::East, dealer: false }
}

fn holds(p: Pattern, hand: &[Mentsu]) -> bool {
    p.check(hand, player())
}

fn names(hand: &[Mentsu]) -> Vec<&'static str> {
    valid_yaku(hand, player()).iter().map(|y| y.name).collect()
}

fn read(s: &str) -> Hand {
    try_parse(s).unwrap()
}

#[test]
fn fu_of_plain_hands() {
    let seqs = [
        won(run(2, Suit::Man), WinWait::Ryanmen),
        run(3, Suit::Pin),
        run(4, Suit::Sou),
        run(5, Suit::Man),
        pair(2, Suit::Honor),
    ];
    assert_eq!(fu(&seqs, WinMethod::Ron), 30);
    assert_eq!(fu(&seqs, WinMethod::Tsumo), 30);
    assert_eq!(fu(&[], WinMethod::Ron), 30);
    assert_eq!(fu(&[], WinMethod::Tsumo), 30);
}

#[test]
fn fu_counts_waits() {
    let base = [run(3, Suit::Pin), run(4, Suit::Sou), run(5, Suit::Man), pair(2, Suit::Honor)];
    for (wait, ron, tsumo) in [
        (WinWait::Ryanmen, 30, 30),
        (WinWait::Shanpon, 30, 30),
        (WinWait::Kanchan, 40, 30),
        (WinWait::Penchan, 40, 30),
        (WinWait::Tanki, 40, 30),
    ] {
        let mut hand = base.to_vec();
        hand.push(won(run(1, Suit::Man), wait));
        assert_eq!(fu(&hand, WinMethod::Ron), ron);
        assert_eq!(fu(&hand, WinMethod::Tsumo), tsumo);
    }
}

#[test]
fn fu_counts_triplets_and_quads() {
    // 30 + 4
    assert_eq!(fu(&[triplet(5, Suit::Man)], WinMethod::Ron), 40);
    // 30 + 8
    assert_eq!(fu(&[triplet(1, Suit::Man)], WinMethod::Ron), 40);
    assert_eq!(fu(&[triplet(5, Suit::Honor)], WinMethod::Ron), 40);
    // 30 + 16
    assert_eq!(fu(&[quad(5, Suit::Man)], WinMethod::Ron), 50);
    // 30 + 32
    assert_eq!(fu(&[quad(9, Suit::Man)], WinMethod::Ron), 70);
    // 22 + 32 + 8 + 8
    assert_eq!(
        fu(&[quad(1, Suit::Honor), triplet(9, Suit::Pin), triplet(1, Suit::Sou)], WinMethod::Tsumo),
        70
    );
    // 30 + 4 + 4 + 2
    assert_eq!(
        fu(&[triplet(2, Suit::Man), triplet(3, Suit::Man), won(pair(4, Suit::Man), WinWait::Tanki)],
            WinMethod::Ron),
        40
    );
    assert_eq!(fu(&[pair(1, Suit::Honor), run(1, Suit::Man)], WinMethod::Ron), 30);
}

#[test]
fn fu_of_open_groups() {
    // open for another reason than the winning tile: 20 + 2
    assert_eq!(fu(&[open(triplet(5, Suit::Man))], WinMethod::Ron), 30);
    // 20 + 4
    assert_eq!(fu(&[open(triplet(1, Suit::Man))], WinMethod::Ron), 30);
    // 20 + 8 + 4
    assert_eq!(fu(&[open(quad(5, Suit::Man)), triplet(2, Suit::Pin)], WinMethod::Ron), 40);
    // 20 + 16
    assert_eq!(fu(&[open(quad(5, Suit::Honor))], WinMethod::Ron), 40);
    // tsumo: 22 + 2
    assert_eq!(fu(&[open(triplet(5, Suit::Man))], WinMethod::Tsumo), 30);
    // open because of the winning tile: the hand stays concealed, 30 + 2
    assert_eq!(fu(&[won(open(triplet(5, Suit::Man)), WinWait::Shanpon)], WinMethod::Ron), 40);
    // 30 + 2 + 4 + 32 + 16
    assert_eq!(
        fu(
            &[
                won(open(triplet(1, Suit::Man)), WinWait::Kanchan),
                quad(2, Suit::Honor),
                quad(3, Suit::Sou)
            ],
            WinMethod::Ron
        ),
        90
    );
}

#[test]
fn concealed_hands() {
    assert!(menzenchin(&[]));
    assert!(menzenchin(&[triplet(5, Suit::Man), won(open(pair(1, Suit::Man)), WinWait::Tanki)]));
    assert!(!menzenchin(&[triplet(5, Suit::Man), open(pair(1, Suit::Man))]));
}

#[test]
fn fu_of_a_whole_hand() {
    let hand = read("111222333s22m11z1z");
    let i13s = interpret(&hand.tiles, hand.win_tile, hand.win_method);
    assert_eq!(i13s.len(), 2);
    let best = i13s.iter().map(|h| fu(h, hand.win_method)).max();
    assert_eq!(best, Some(50));
    let least = i13s.iter().map(|h| fu(h, hand.win_method)).min();
    assert_eq!(least, Some(30));
}

#[test]
fn yaku_of_a_whole_hand() {
    let hand = read("111222333s22m11z1z");
    let i13s = interpret(&hand.tiles, hand.win_tile, hand.win_method);
    let triplets = i13s.iter().find(|h| h.iter().all(|m| !m.sequence())).unwrap();
    let runs = i13s.iter().find(|h| h.iter().any(|m| m.sequence())).unwrap();
    assert_eq!(
        names(triplets),
        vec!["Menzen-tsumo", "Yakuhai (Round wind)", "Sanankou", "Toitoi"]
    );
    assert_eq!(
        names(runs),
        vec!["Menzen-tsumo", "Yakuhai (Round wind)", "Ryanpeikou", "Iipeikou"]
    );
    let han: u32 = valid_yaku(triplets, player()).iter().map(|y| y.han(true)).sum();
    assert_eq!(han, 6);
}

#[test]
fn simple_patterns() {
    let simples = [run(2, Suit::Man), triplet(5, Suit::Honor), pair(8, Suit::Pin)];
    let ends = [run(1, Suit::Man), triplet(9, Suit::Sou), pair(1, Suit::Pin)];
    let mixed = [run(7, Suit::Man), triplet(1, Suit::Honor), pair(9, Suit::Pin)];
    assert!(holds(Pattern::Tanyao, &simples));
    assert!(!holds(Pattern::Tanyao, &ends));
    assert!(holds(Pattern::Junchan, &ends));
    assert!(!holds(Pattern::Junchan, &mixed));
    assert!(holds(Pattern::Chanta, &mixed));
    assert!(holds(Pattern::Chanta, &ends));
    assert!(!holds(Pattern::Chanta, &simples));
    assert!(holds(Pattern::MenzenTsumo, &simples));
    assert!(!holds(Pattern::MenzenTsumo, &[run(2, Suit::Man), open(pair(8, Suit::Pin))]));
    assert!(holds(Pattern::Toitoi, &[triplet(1, Suit::Man), quad(2, Suit::Man), pair(3, Suit::Man)]));
    assert!(!holds(Pattern::Toitoi, &simples));
    assert!(holds(Pattern::Tsuuiisou, &[triplet(1, Suit::Honor), pair(7, Suit::Honor)]));
    assert!(!holds(Pattern::Tsuuiisou, &mixed));
    assert!(holds(Pattern::Chinroutou, &[triplet(1, Suit::Man), pair(9, Suit::Sou)]));
    assert!(!holds(Pattern::Chinroutou, &ends));
    assert!(!holds(Pattern::Chinroutou, &[triplet(1, Suit::Honor)]));
    assert!(holds(Pattern::Declared, &simples));
    assert!(holds(Pattern::Declared, &[]));
    for p in [Pattern::Tanyao, Pattern::Junchan, Pattern::Chanta, Pattern::Toitoi] {
        assert!(holds(p, &[]));
    }
}

#[test]
fn wind_and_dragon_triplets() {
    let east = [triplet(1, Suit::Honor), pair(2, Suit::Honor)];
    let south = [quad(2, Suit::Honor), pair(1, Suit::Honor)];
    assert!(holds(Pattern::RoundWind, &east));
    assert!(!holds(Pattern::SeatWind, &east));
    assert!(holds(Pattern::SeatWind, &south));
    assert!(!holds(Pattern::RoundWind, &south));
    assert!(!holds(Pattern::RoundWind, &[triplet(1, Suit::Man)]));
    assert!(!holds(Pattern::RoundWind, &[]));
    let dragons = [triplet(5, Suit::Honor), quad(6, Suit::Honor), triplet(7, Suit::Man)];
    assert!(holds(Pattern::WhiteDragon, &dragons));
    assert!(!holds(Pattern::GreenDragon, &dragons));
    assert!(!holds(Pattern::RedDragon, &dragons));
    assert!(holds(Pattern::GreenDragon, &[triplet(6, Suit::Honor)]));
    assert!(holds(Pattern::RedDragon, &[pair(1, Suit::Man), triplet(7, Suit::Honor)]));
}

#[test]
fn pinfu_wants_sequences_a_plain_pair_and_an_open_wait() {
    let good = [
        won(run(2, Suit::Man), WinWait::Ryanmen),
        run(3, Suit::Pin),
        run(4, Suit::Sou),
        run(5, Suit::Man),
        pair(2, Suit::Man),
    ];
    assert!(holds(Pattern::Pinfu, &good));
    let mut honor_pair = good;
    honor_pair[4] = pair(2, Suit::Honor);
    assert!(!holds(Pattern::Pinfu, &honor_pair));
    let mut closed_wait = good;
    closed_wait[0] = won(run(2, Suit::Man), WinWait::Kanchan);
    assert!(!holds(Pattern::Pinfu, &closed_wait));
    let mut with_triplet = good;
    with_triplet[1] = triplet(3, Suit::Pin);
    assert!(!holds(Pattern::Pinfu, &with_triplet));
    let mut called = good;
    called[1] = open(run(3, Suit::Pin));
    assert!(!holds(Pattern::Pinfu, &called));
    let mut ron = good;
    ron[0] = open(won(run(2, Suit::Man), WinWait::Ryanmen));
    assert!(holds(Pattern::Pinfu, &ron));
    assert!(!holds(Pattern::Pinfu, &good[..4]));
    assert!(!holds(Pattern::Pinfu, &[]));
    // the first pair decides
    let two_pairs = [won(run(2, Suit::Man), WinWait::Ryanmen), pair(1, Suit::Honor), pair(2, Suit::Man)];
    assert!(!holds(Pattern::Pinfu, &two_pairs));
    let two_pairs = [won(run(2, Suit::Man), WinWait::Ryanmen), pair(2, Suit::Man), pair(1, Suit::Honor)];
    assert!(holds(Pattern::Pinfu, &two_pairs));
}

#[test]
fn concealed_triplets_are_counted() {
    let three = [triplet(1, Suit::Man), quad(2, Suit::Man), triplet(3, Suit::Man), run(4, Suit::Man)];
    assert!(holds(Pattern::Sanankou, &three));
    assert!(!holds(Pattern::Suuankou, &three));
    let mut two = three;
    two[0] = open(triplet(1, Suit::Man));
    assert!(!holds(Pattern::Sanankou, &two));
    let four = [triplet(1, Suit::Man), quad(2, Suit::Man), triplet(3, Suit::Man), triplet(4, Suit::Man)];
    assert!(holds(Pattern::Sanankou, &four));
    assert!(holds(Pattern::Suuankou, &four));
}

#[test]
fn identical_sequences() {
    let none = [run(1, Suit::Man), run(2, Suit::Man), run(1, Suit::Pin), pair(1, Suit::Sou)];
    let one = [run(1, Suit::Man), run(2, Suit::Man), run(1, Suit::Man), pair(1, Suit::Sou)];
    let two = [run(1, Suit::Man), run(2, Suit::Pin), run(1, Suit::Man), run(2, Suit::Pin)];
    let three = [run(1, Suit::Man), run(1, Suit::Man), pair(1, Suit::Sou), run(1, Suit::Man)];
    let four = [run(1, Suit::Man), run(1, Suit::Man), run(1, Suit::Man), run(1, Suit::Man)];
    let triplets = [triplet(1, Suit::Man), triplet(1, Suit::Man)];
    assert!(!holds(Pattern::Iipeikou, &none));
    assert!(!holds(Pattern::Ryanpeikou, &none));
    assert!(holds(Pattern::Iipeikou, &one));
    assert!(!holds(Pattern::Ryanpeikou, &one));
    assert!(holds(Pattern::Iipeikou, &two));
    assert!(holds(Pattern::Ryanpeikou, &two));
    assert!(holds(Pattern::Ryanpeikou, &three));
    assert!(holds(Pattern::Ryanpeikou, &four));
    assert!(!holds(Pattern::Iipeikou, &triplets));
    assert!(!holds(Pattern::Ryanpeikou, &triplets));
    // an annotation does not part twins
    let tagged = [won(run(1, Suit::Man), WinWait::Ryanmen), run(1, Suit::Man)];
    assert!(holds(Pattern::Iipeikou, &tagged));
}

#[test]
fn three_colors() {
    let runs = [run(2, Suit::Man), run(2, Suit::Pin), run(2, Suit::Sou), pair(1, Suit::Sou)];
    let two = [run(2, Suit::Man), run(2, Suit::Pin), run(3, Suit::Sou), pair(1, Suit::Sou)];
    let trips = [triplet(2, Suit::Man), pair(1, Suit::Sou), triplet(2, Suit::Pin), triplet(2, Suit::Sou)];
    let quads = [quad(2, Suit::Man), triplet(2, Suit::Pin), triplet(2, Suit::Sou)];
    assert!(holds(Pattern::SanshokuDoujun, &runs));
    assert!(!holds(Pattern::SanshokuDoukou, &runs));
    assert!(!holds(Pattern::SanshokuDoujun, &two));
    assert!(holds(Pattern::SanshokuDoukou, &trips));
    assert!(!holds(Pattern::SanshokuDoujun, &trips));
    assert!(!holds(Pattern::SanshokuDoukou, &quads));
    assert!(!holds(Pattern::SanshokuDoukou, &[]));
}

#[test]
fn pure_straight() {
    let straight = [run(1, Suit::Pin), run(4, Suit::Pin), run(7, Suit::Pin), pair(1, Suit::Sou)];
    let mixed = [run(1, Suit::Pin), run(4, Suit::Man), run(7, Suit::Pin), pair(1, Suit::Sou)];
    let backwards = [run(7, Suit::Pin), run(4, Suit::Pin), run(1, Suit::Pin)];
    let spread = [run(1, Suit::Sou), run(1, Suit::Pin), run(4, Suit::Sou), run(2, Suit::Sou), run(7, Suit::Sou)];
    assert!(holds(Pattern::Ittsuu, &straight));
    assert!(!holds(Pattern::Ittsuu, &mixed));
    assert!(!holds(Pattern::Ittsuu, &backwards));
    assert!(holds(Pattern::Ittsuu, &spread));
    assert!(!holds(Pattern::Ittsuu, &[]));
}

#[test]
fn tables_list_the_yaku() {
    let regular = regular_yaku();
    assert_eq!(regular.len(), 17);
    assert_eq!(regular[0].name(), "Tanyao");
    assert_eq!(regular[0].desc, "All simples");
    assert_eq!(regular[0].han, 1);
    assert_eq!(regular[0].open_score, OpenScore::Illegal);
    assert_eq!(regular[0].pattern, Pattern::Tanyao);
    assert_eq!(regular[5].name(), "Junchan (incompatible w chanta)");
    assert_eq!(regular[5].han, 3);
    assert_eq!(regular[9].name(), "Yakuhai (Red Dragon)");
    assert_eq!(regular[9].han, 2);
    assert_eq!(regular[16].name(), "Ittsuu");
    assert_eq!(regular[16].open_score, OpenScore::Reduced);
    let top = yakuman();
    assert_eq!(top.len(), 3);
    assert_eq!(top.iter().map(|y| y.name).collect::<Vec<_>>(), vec!["Tsuuiisou", "Chinroutou", "Suuankou"]);
    assert!(top.iter().all(|y| y.han == 99));
    let declared = conditional_yaku();
    assert_eq!(declared.len(), 6);
    assert_eq!(declared[1].name, "Double riichi");
    assert_eq!(declared[1].han, 2);
    assert!(declared.iter().all(|y| y.valid_for(&[], player())));
    let weird = weird_yaku_and_yakuman();
    assert_eq!(weird.len(), 2);
    assert_eq!(weird[0].name, "Chiitoi");
    assert_eq!(weird[0].han, 2);
    assert_eq!(weird[0].pattern, TilePattern::Chiitoi);
    assert_eq!(weird[1].name, "Kokushi musou");
    assert_eq!(weird[1].han, 99);
    assert_eq!(weird[1].desc, "13 terminals/honors + a copy of one");
}

#[test]
fn han_of_open_and_concealed_hands() {
    let full = Yaku { name: "a", desc: "", han: 2, open_score: OpenScore::Full, pattern: Pattern::Toitoi };
    let reduced = Yaku { open_score: OpenScore::Reduced, ..full };
    let illegal = Yaku { open_score: OpenScore::Illegal, ..full };
    assert_eq!(full.han(true), 2);
    assert_eq!(full.han(false), 2);
    assert_eq!(reduced.han(true), 2);
    assert_eq!(reduced.han(false), 1);
    assert_eq!(illegal.han(true), 2);
}

#[test]
fn valid_yaku_keeps_table_order() {
    let hand = [
        triplet(1, Suit::Honor),
        triplet(9, Suit::Man),
        triplet(1, Suit::Pin),
        triplet(9, Suit::Sou),
        pair(1, Suit::Sou),
    ];
    assert_eq!(
        names(&hand),
        vec!["Menzen-tsumo", "Yakuhai (Round wind)", "Chanta", "Sanankou", "Toitoi"]
    );
    assert!(yakuman().iter().any(|y| y.name == "Suuankou" && y.valid_for(&hand, player())));
}

#[test]
fn seven_pairs() {
    let mut tiles = tiles_of(Suit::Man, &[1, 1, 2, 2, 3, 3, 4, 4, 5, 5, 6, 6]);
    tiles.extend(tiles_of(Suit::Honor, &[7, 7]));
    assert!(chiitoi(&tiles));
    assert!(weird_yaku_and_yakuman()[0].valid_for(&tiles));
    assert!(!weird_yaku_and_yakuman()[1].valid_for(&tiles));
    tiles[0] = t(9, Suit::Man);
    assert!(!chiitoi(&tiles));
    assert!(!chiitoi(&tiles_of(Suit::Man, &[1, 1, 1, 1])));
    assert!(chiitoi(&[]));
    assert_eq!(occurrences(&tiles_of(Suit::Man, &[1, 2, 1, 1]), t(1, Suit::Man)), 3);
    assert_eq!(occurrences(&tiles_of(Suit::Man, &[1, 2, 1, 1]), t(1, Suit::Pin)), 0);
}

#[test]
fn thirteen_orphans() {
    let mut tiles = vec![
        t(1, Suit::Man),
        t(9, Suit::Man),
        t(1, Suit::Pin),
        t(9, Suit::Pin),
        t(1, Suit::Sou),
        t(9, Suit::Sou),
    ];
    tiles.extend(tiles_of(Suit::Honor, &[1, 2, 3, 4, 5, 6, 7]));
    assert!(!kokushi(&tiles));
    tiles.push(t(9, Suit::Pin));
    assert!(kokushi(&tiles));
    assert!(TilePattern::KokushiMusou.check(&tiles));
    assert!(!TilePattern::Chiitoi.check(&tiles));
    let mut two_pairs = tiles.clone();
    two_pairs[0] = t(9, Suit::Man);
    assert!(!kokushi(&two_pairs));
    let mut triple = tiles.clone();
    triple[0] = t(9, Suit::Pin);
    assert!(!kokushi(&triple));
    let mut simple = tiles.clone();
    simple[0] = t(5, Suit::Man);
    assert!(!kokushi(&simple));
    assert!(!kokushi(&[]));
}

#[test]
fn notation_is_read() {
    let hand = read("111222333s22m11z1z");
    assert_eq!(hand.win_tile, t(1, Suit::Honor));
    assert_eq!(hand.win_method, WinMethod::Tsumo);
    let mut wanted = tiles_of(Suit::Sou, &[1, 1, 1]);
    wanted.extend(tiles_of(Suit::Honor, &[1, 1, 1]));
    wanted.extend(tiles_of(Suit::Man, &[2, 2]));
    wanted.extend(tiles_of(Suit::Sou, &[2, 2, 2, 3, 3, 3]));
    assert_eq!(hand.tiles, wanted);
    assert!(hand.tiles.contains(&hand.win_tile));
    let same = parse("111222333s22m11z1z");
    assert_eq!(same.tiles, wanted);
}

#[test]
fn space_before_the_last_tile_is_a_call() {
    let hand = read("123m456p 7s");
    assert_eq!(hand.win_method, WinMethod::Ron);
    assert_eq!(hand.win_tile, t(7, Suit::Sou));
    assert_eq!(
        hand.tiles,
        vec![
            t(1, Suit::Man),
            t(2, Suit::Man),
            t(3, Suit::Man),
            t(4, Suit::Pin),
            t(5, Suit::Pin),
            t(6, Suit::Pin),
            t(7, Suit::Sou)
        ]
    );
    assert_eq!(read("123m\t7s").win_method, WinMethod::Ron);
    assert_eq!(read("123m\n7s").win_method, WinMethod::Ron);
    assert_eq!(read("123m7s").win_method, WinMethod::Tsumo);
    assert_eq!(read("123m 17s").win_method, WinMethod::Tsumo);
    assert_eq!(read("9z").win_method, WinMethod::Tsumo);
    assert_eq!(read("9z").tiles, vec![t(9, Suit::Honor)]);
    assert_eq!(read(" 9z").win_method, WinMethod::Ron);
}

#[test]
fn stray_characters_between_runs_are_skipped() {
    let hand = read("1mm, 2p!?3s");
    assert_eq!(hand.tiles, vec![t(1, Suit::Man), t(2, Suit::Pin), t(3, Suit::Sou)]);
    assert_eq!(hand.win_tile, t(3, Suit::Sou));
    assert_eq!(hand.win_method, WinMethod::Tsumo);
}

#[test]
fn what_is_no_notation_is_refused() {
    for bad in [
        "",
        "1",
        "m",
        "mm",
        "12",
        "1m2",
        "12m3",
        "1x",
        "1m 2",
        "1 m2p",
        "12 3m",
        "0m",
        "10m2p",
        "1m0p",
        "1é2m",
        "é1m",
        "1m\u{a0}2p",
        "1M",
        "1m2P",
    ] {
        assert!(try_parse(bad).is_none(), "{}", format!("{:?} was read", bad));
    }
}
