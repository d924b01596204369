use riichi::mentsu::iter::Iter;
use riichi::mentsu::{get_tiles, wait_rank, Kind, Mentsu};
use riichi::player_state::Wind;
use riichi::tile::{decimal_text, Suit, Tile, WinMethod};
use riichi::win_wait::WinWait;
use std::cmp::Ordering;

fn t(v: u32, s: Suit) -> Tile {
    Tile::new(v, s)
}

#[test]
fn tile_steps_up_within_its_suit() {
    assert_eq!(t(1, Suit::Man).add(1), Some(t(2, Suit::Man)));
    assert_eq!(t(7, Suit::Sou).add(2), Some(t(9, Suit::Sou)));
    assert_eq!(t(8, Suit::Sou).add(2), None);
    assert_eq!(t(9, Suit::Pin).add(1), None);
    assert_eq!(t(9, Suit::Pin).add(0), Some(t(9, Suit::Pin)));
    assert_eq!(t(3, Suit::Honor).add(1), Some(t(4, Suit::Honor)));
    assert_eq!(t(5, Suit::Man).add(u32::MAX), None);
    assert_eq!(t(u32::MAX, Suit::Man).add(1), None);
}

#[test]
fn tiles_that_can_share_a_sequence() {
    assert!(t(1, Suit::Man).can_sequence(t(2, Suit::Man)));
    assert!(t(1, Suit::Man).can_sequence(t(3, Suit::Man)));
    assert!(t(3, Suit::Man).can_sequence(t(1, Suit::Man)));
    assert!(!t(1, Suit::Man).can_sequence(t(4, Suit::Man)));
    assert!(!t(1, Suit::Man).can_sequence(t(1, Suit::Man)));
    assert!(!t(1, Suit::Man).can_sequence(t(2, Suit::Pin)));
    assert!(!t(1, Suit::Honor).can_sequence(t(2, Suit::Honor)));
    assert!(!t(0, Suit::Man).can_sequence(t(u32::MAX, Suit::Man)));
}

#[test]
fn honors_terminals_and_simples() {
    assert!(t(1, Suit::Honor).honor());
    assert!(!t(1, Suit::Man).honor());
    assert!(t(1, Suit::Man).terminal());
    assert!(t(9, Suit::Sou).terminal());
    assert!(!t(5, Suit::Sou).terminal());
    assert!(!t(1, Suit::Honor).terminal());
    assert!(!t(9, Suit::Honor).terminal());
    assert!(t(5, Suit::Pin).simple());
    assert!(!t(9, Suit::Pin).simple());
    assert!(!t(5, Suit::Honor).simple());
}

#[test]
fn tiles_compare_by_rank_then_suit() {
    let tiles = [
        t(1, Suit::Man),
        t(1, Suit::Pin),
        t(1, Suit::Sou),
        t(1, Suit::Honor),
        t(2, Suit::Man),
        t(9, Suit::Honor),
    ];
    for (i, a) in tiles.iter().enumerate() {
        for (j, b) in tiles.iter().enumerate() {
            assert_eq!(a.partial_cmp(b), Some(i.cmp(&j)));
            assert_eq!(a.cmp(b), i.cmp(&j));
            assert_eq!(a.precedes(*b), i < j);
            assert_eq!(a == b, i == j);
        }
    }
    assert_eq!(t(2, Suit::Man).partial_cmp(&t(1, Suit::Honor)), Some(Ordering::Greater));
}

#[test]
fn suits_have_letters_and_an_order() {
    assert_eq!(Suit::all(), [Suit::Man, Suit::Pin, Suit::Sou, Suit::Honor]);
    for (i, s) in Suit::all().iter().enumerate() {
        assert_eq!(s.rank() as usize, i);
        assert_eq!(Suit::from_char(s.to_char()), Some(*s));
        assert_eq!(s.to_string(), s.to_char().to_string());
    }
    assert_eq!(Suit::Man.to_char(), 'm');
    assert_eq!(Suit::Pin.to_char(), 'p');
    assert_eq!(Suit::Sou.to_char(), 's');
    assert_eq!(Suit::Honor.to_char(), 'z');
    assert_eq!(Suit::from_char('x'), None);
    assert_eq!(Suit::from_char('M'), None);
    assert!(Suit::Man < Suit::Pin && Suit::Pin < Suit::Sou && Suit::Sou < Suit::Honor);
}

#[test]
fn honor_tiles_show_winds() {
    assert_eq!(t(1, Suit::Honor).wind(), Some(Wind::East));
    assert_eq!(t(2, Suit::Honor).wind(), Some(Wind::South));
    assert_eq!(t(3, Suit::Honor).wind(), Some(Wind::West));
    assert_eq!(t(4, Suit::Honor).wind(), Some(Wind::North));
    assert_eq!(t(5, Suit::Honor).wind(), None);
    assert_eq!(t(1, Suit::Man).wind(), None);
    assert_eq!(Mentsu::new(Kind::Triplet(t(2, Suit::Honor))).wind(), Some(Wind::South));
    assert_eq!(Mentsu::new(Kind::Pair(t(4, Suit::Honor))).wind(), Some(Wind::North));
    assert_eq!(
        Mentsu::new(Kind::Sequence(t(1, Suit::Honor), t(2, Suit::Honor), t(3, Suit::Honor))).wind(),
        None
    );
}

#[test]
fn numbers_in_decimal() {
    assert_eq!(decimal_text(0), "0");
    assert_eq!(decimal_text(7), "7");
    assert_eq!(decimal_text(10), "10");
    assert_eq!(decimal_text(905), "905");
    assert_eq!(decimal_text(u32::MAX), "4294967295");
    for n in 0..1200u32 {
        assert_eq!(decimal_text(n), n.to_string());
    }
}

#[test]
fn tiles_and_groups_as_text() {
    assert_eq!(t(1, Suit::Honor).to_string(), "1z");
    assert_eq!(t(9, Suit::Man).to_string(), "9m");
    assert_eq!(t(12, Suit::Pin).to_string(), "12p");
    assert_eq!(Kind::Triplet(t(1, Suit::Sou)).to_string(), "Tr(1s)");
    assert_eq!(Kind::Quad(t(2, Suit::Man)).to_string(), "Qd(2m)");
    assert_eq!(Kind::Pair(t(3, Suit::Pin)).to_string(), "Pr(3p)");
    assert_eq!(
        Kind::Sequence(t(1, Suit::Sou), t(2, Suit::Sou), t(3, Suit::Sou)).to_string(),
        "Sq(1s,2s,3s)"
    );
    assert_eq!(WinWait::Ryanmen.to_string(), "RYN");
    assert_eq!(WinWait::Kanchan.to_string(), "KAN");
    assert_eq!(WinWait::Penchan.to_string(), "PEN");
    assert_eq!(WinWait::Tanki.to_string(), "TAN");
    assert_eq!(WinWait::Shanpon.to_string(), "SHA");
    let mut m = Mentsu::new(Kind::Triplet(t(1, Suit::Honor)));
    assert_eq!(m.to_string(), "Tr(1z)");
    m.set_win_wait(Some(WinWait::Shanpon));
    assert_eq!(m.to_string(), "Tr(1z)SHA");
    m.set_open(true);
    assert_eq!(m.to_string(), "OpTr(1z)SHA");
    m.set_win_wait(None);
    assert_eq!(m.to_string(), "OpTr(1z)");
}

#[test]
fn new_group_is_closed_and_has_no_wait() {
    let m = Mentsu::new(Kind::Pair(t(5, Suit::Man)));
    assert_eq!(m.kind, Kind::Pair(t(5, Suit::Man)));
    assert!(!m.open);
    assert!(m.closed());
    assert_eq!(m.win_wait, None);
}

#[test]
fn setters_change_one_field() {
    let mut m = Mentsu::new(Kind::Pair(t(5, Suit::Man)));
    m.set_open(true);
    assert!(m.open && !m.closed());
    assert_eq!(m.win_wait, None);
    m.set_win_wait(Some(WinWait::Tanki));
    assert!(m.open);
    assert_eq!(m.win_wait, Some(WinWait::Tanki));
    assert_eq!(m.kind, Kind::Pair(t(5, Suit::Man)));
    m.set_open(false);
    assert!(m.closed());
    assert_eq!(m.win_wait, Some(WinWait::Tanki));
}

#[test]
fn groups_know_their_shape_and_tiles() {
    let p = Mentsu::new(Kind::Pair(t(1, Suit::Man)));
    let tr = Mentsu::new(Kind::Triplet(t(5, Suit::Honor)));
    let q = Mentsu::new(Kind::Quad(t(9, Suit::Sou)));
    let s = Mentsu::new(Kind::Sequence(t(7, Suit::Pin), t(8, Suit::Pin), t(9, Suit::Pin)));
    assert!(p.pair() && !p.triplet() && !p.quad() && !p.sequence());
    assert!(!tr.pair() && tr.triplet() && !tr.quad() && !tr.sequence());
    assert!(!q.pair() && q.triplet() && q.quad() && !q.sequence());
    assert!(!s.pair() && !s.triplet() && !s.quad() && s.sequence());
    assert!(p.contains(t(1, Suit::Man)) && !p.contains(t(1, Suit::Pin)));
    assert!(s.contains(t(7, Suit::Pin)) && s.contains(t(8, Suit::Pin)) && s.contains(t(9, Suit::Pin)));
    assert!(!s.contains(t(6, Suit::Pin)));
    assert!(p.contains_terminal() && p.entirely_terminal() && !p.honor());
    assert!(!tr.contains_terminal() && !tr.entirely_terminal() && tr.honor());
    assert!(q.contains_terminal() && q.entirely_terminal());
    assert!(s.contains_terminal() && !s.entirely_terminal() && !s.honor());
    assert_eq!(s.suit(), Suit::Pin);
    assert_eq!(tr.suit(), Suit::Honor);
}

#[test]
fn equality_of_groups_looks_at_the_kind() {
    let a = Mentsu::new(Kind::Pair(t(1, Suit::Man)));
    let mut b = a;
    b.set_open(true);
    b.set_win_wait(Some(WinWait::Tanki));
    assert!(a == b);
    assert!(!a.identical(b));
    assert!(a.identical(a));
    assert!(a != Mentsu::new(Kind::Triplet(t(1, Suit::Man))));
    assert!(a != Mentsu::new(Kind::Pair(t(1, Suit::Pin))));
}

#[test]
fn mirrors_have_the_same_ranks_in_other_suits() {
    let a = Mentsu::new(Kind::Triplet(t(3, Suit::Man)));
    let b = Mentsu::new(Kind::Triplet(t(3, Suit::Pin)));
    let c = Mentsu::new(Kind::Quad(t(3, Suit::Sou)));
    let d = Mentsu::new(Kind::Triplet(t(4, Suit::Pin)));
    let s = Mentsu::new(Kind::Sequence(t(3, Suit::Sou), t(4, Suit::Sou), t(5, Suit::Sou)));
    let u = Mentsu::new(Kind::Sequence(t(3, Suit::Man), t(4, Suit::Man), t(5, Suit::Man)));
    assert!(a.eq_diff_suits(b) && b.eq_diff_suits(a));
    assert!(!a.eq_diff_suits(a));
    assert!(!a.eq_diff_suits(c));
    assert!(!a.eq_diff_suits(d));
    assert!(!a.eq_diff_suits(s));
    assert!(s.eq_diff_suits(u));
    assert!(!s.eq_diff_suits(s));
}

#[test]
fn tiles_of_groups_come_out_in_order() {
    let p = Mentsu::new(Kind::Pair(t(1, Suit::Man)));
    let q = Mentsu::new(Kind::Quad(t(9, Suit::Sou)));
    let s = Mentsu::new(Kind::Sequence(t(7, Suit::Pin), t(8, Suit::Pin), t(9, Suit::Pin)));
    let tr = Mentsu::new(Kind::Triplet(t(2, Suit::Honor)));
    assert_eq!(get_tiles(&[]), Vec::<Tile>::new());
    assert_eq!(
        get_tiles(&[s, p, q, tr]),
        vec![
            t(7, Suit::Pin),
            t(8, Suit::Pin),
            t(9, Suit::Pin),
            t(1, Suit::Man),
            t(1, Suit::Man),
            t(9, Suit::Sou),
            t(9, Suit::Sou),
            t(9, Suit::Sou),
            t(9, Suit::Sou),
            t(2, Suit::Honor),
            t(2, Suit::Honor),
            t(2, Suit::Honor),
        ]
    );
    let mut it = Iter::new(&s);
    assert_eq!(it.next(), Some(t(7, Suit::Pin)));
    assert_eq!(it.next(), Some(t(8, Suit::Pin)));
    assert_eq!(it.next(), Some(t(9, Suit::Pin)));
    assert_eq!(it.next(), None);
    assert_eq!(it.next(), None);
    let mut it = p.iter();
    assert_eq!(it.next(), Some(t(1, Suit::Man)));
    assert_eq!(it.next(), Some(t(1, Suit::Man)));
    assert_eq!(it.next(), None);
}

#[test]
fn waits_have_an_order() {
    assert_eq!(wait_rank(None), 0);
    let waits = [
        WinWait::Ryanmen,
        WinWait::Kanchan,
        WinWait::Penchan,
        WinWait::Tanki,
        WinWait::Shanpon,
    ];
    for (i, w) in waits.iter().enumerate() {
        assert_eq!(w.rank() as usize, i);
        assert_eq!(wait_rank(Some(*w)) as usize, i + 1);
        for (j, v) in waits.iter().enumerate() {
            assert_eq!(w < v, i < j);
        }
    }
    assert!(WinMethod::Tsumo < WinMethod::Ron);
}
