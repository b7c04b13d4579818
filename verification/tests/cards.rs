//! Card model and deck engine tests.

use proba::card::{rank_value, suit_value, weight, Card, Rank, Suit};
use proba::deck::{community, deck, withdraw};
use proba::error::Error;
use proba::hand::Hand;

#[test]
fn parsing_examples() {
    assert!(matches!(Card::parse("Zz"), Err(Error::Parse(_))));
    let ah = Card::parse("Ah").unwrap();
    assert!(matches!(ah.rank, Rank::Ace));
    assert!(matches!(ah.suit, Suit::Hearts));
    assert!(matches!(Card::parse("A"), Err(Error::Parse(_))));
    assert!(matches!(Card::parse("Ahx"), Err(Error::Parse(_))));
    assert!(matches!(Card::parse("hA"), Err(Error::Parse(_))));
}

#[test]
fn card_codes_round_trip() {
    let full = deck();
    for c in &full {
        let code = c.code();
        let back = Card::parse(code.as_str()).unwrap();
        assert_eq!(back.value, c.value);
        assert_eq!(back.weight, c.weight);
    }
}

#[test]
fn hand_parsing_and_code() {
    let h = Hand::parse("AhKc").unwrap();
    assert_eq!(h.code(), "AhKc");
    assert_eq!(h.wins, 0);
    assert_eq!(h.ties, 0);
    assert_eq!(h.runs, 0);
    assert!(matches!(Hand::parse("AhK"), Err(Error::Parse(_))));
    assert!(matches!(Hand::parse("AhZz"), Err(Error::Parse(_))));
}

#[test]
fn full_deck_has_52_distinct_cards() {
    let full = deck();
    assert_eq!(full.len(), 52);
    let mut present = [false; 52];
    for c in &full {
        assert!(c.value < 52);
        assert!(!present[c.value]);
        present[c.value] = true;
    }
    assert!(present.iter().all(|&p| p));
}

#[test]
fn card_set_covers_all_ranks() {
    let spades = Card::set(Suit::Spades);
    assert_eq!(spades.len(), 13);
    assert!(matches!(spades[0].rank, Rank::Ace));
    assert!(matches!(spades[12].rank, Rank::Two));
    for c in &spades {
        assert!(matches!(c.suit, Suit::Spades));
    }
}

#[test]
fn weight_constants() {
    assert_eq!(rank_value(Rank::Ace), 1479181);
    assert_eq!(rank_value(Rank::King), 636345);
    assert_eq!(rank_value(Rank::Two), 0);
    assert_eq!(suit_value(Suit::Spades), 0);
    assert_eq!(suit_value(Suit::Hearts), 1);
    assert_eq!(suit_value(Suit::Diamonds), 8);
    assert_eq!(suit_value(Suit::Clubs), 57);
    let two_clubs = Card::parse("2c").unwrap();
    assert_eq!(two_clubs.weight, 57u32 << 23);
    assert_eq!(two_clubs.value, 51);
    let ace_spades = Card::parse("As").unwrap();
    assert_eq!(ace_spades.weight, 1479181);
    assert_eq!(ace_spades.value, 0);
}

#[test]
fn weight_is_order_independent() {
    let cards: Vec<Card> = ["Ah", "Kd", "7c", "2s", "Ts"]
        .iter()
        .map(|c| Card::parse(c).unwrap())
        .collect();
    let mut shuffled = cards.clone();
    shuffled.swap(0, 4);
    shuffled.swap(1, 3);
    shuffled.swap(2, 0);
    assert_eq!(weight(&cards), weight(&shuffled));
}

#[test]
fn withdraw_removes_exactly_the_dealt_cards() {
    let mut d = deck();
    let hands = vec![Hand::parse("AhKc").unwrap(), Hand::parse("2s2d").unwrap()];
    let board: Vec<Card> = ["7c", "8h", "9d"]
        .iter()
        .map(|c| Card::parse(c).unwrap())
        .collect();
    withdraw(&mut d, &hands, &board).unwrap();
    assert_eq!(d.len(), 52 - 2 * 2 - 3);
    for c in &d {
        for h in &hands {
            for hc in h.cards() {
                assert_ne!(c.value, hc.value);
            }
        }
        for b in &board {
            assert_ne!(c.value, b.value);
        }
    }
}

#[test]
fn withdraw_detects_duplicates() {
    let mut d = deck();
    let hands = vec![Hand::parse("AhKc").unwrap()];
    let board = vec![Card::parse("Ah").unwrap()];
    let r = withdraw(&mut d, &hands, &board);
    assert!(matches!(r, Err(Error::Duplicate(_))));
    // A failed withdrawal leaves the deck untouched.
    assert_eq!(d.len(), 52);
}

#[test]
fn hand_counters_accumulate() {
    let mut h = Hand::parse("AhKc").unwrap();
    h.win();
    h.win();
    h.tie();
    h.ran();
    assert_eq!(h.wins, 2);
    assert_eq!(h.ties, 1);
    assert_eq!(h.runs, 1);
    let cards = h.cards();
    assert_eq!(cards.len(), 2);
    assert_eq!(cards[0].value, Card::parse("Ah").unwrap().value);
}

#[test]
fn community_completes_the_board_from_the_deck() {
    let d = deck();
    let board: Vec<Card> = ["As", "Ks", "Qs"]
        .iter()
        .map(|c| Card::parse(c).unwrap())
        .collect();
    let comm = community(&d, &board);
    assert_eq!(comm.len(), 5);
    assert_eq!(comm[2].value, board[0].value);
    assert_eq!(comm[3].value, board[1].value);
    assert_eq!(comm[4].value, board[2].value);
    for drawn in &comm[0..2] {
        assert!(d.iter().any(|c| c.value == drawn.value));
    }
    assert_ne!(comm[0].value, comm[1].value);
    let empty_board: Vec<Card> = Vec::new();
    let comm2 = community(&d, &empty_board);
    assert_eq!(comm2.len(), 5);
}
