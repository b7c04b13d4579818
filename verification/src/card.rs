//! Card model: ranks, suits, and the additive weight encoding.
//!
//! A card's weight packs the suit signal into bit 23 and above and the rank
//! signal into the low 23 bits, so that summing up to seven card weights
//! yields one integer whose high part detects a flush and whose low part
//! feeds a perfect hash over rank combinations.

use crate::error::Error;
use vstd::prelude::*;

verus! {

broadcast use vstd::string::group_string_axioms;

/// Suit weights sit this many bits above the rank weights in a card's weight.
pub const FLUSH_BIT_SHIFT: u32 = 23;

#[derive(Clone, Copy, PartialEq, Eq, Structural, Debug)]
pub enum Rank {
    Ace,
    King,
    Queen,
    Jack,
    Ten,
    Nine,
    Eight,
    Seven,
    Six,
    Five,
    Four,
    Three,
    Two,
}

#[derive(Clone, Copy, PartialEq, Eq, Structural, Debug)]
pub enum Suit {
    Spades,
    Hearts,
    Diamonds,
    Clubs,
}

/// Position of a rank in the canonical order (Ace first).
pub open spec fn spec_rank_index(rank: Rank) -> int {
    match rank {
        Rank::Ace => 0,
        Rank::King => 1,
        Rank::Queen => 2,
        Rank::Jack => 3,
        Rank::Ten => 4,
        Rank::Nine => 5,
        Rank::Eight => 6,
        Rank::Seven => 7,
        Rank::Six => 8,
        Rank::Five => 9,
        Rank::Four => 10,
        Rank::Three => 11,
        Rank::Two => 12,
    }
}

/// Position of a suit in the canonical order (Spades first).
pub open spec fn spec_suit_index(suit: Suit) -> int {
    match suit {
        Suit::Spades => 0,
        Suit::Hearts => 1,
        Suit::Diamonds => 2,
        Suit::Clubs => 3,
    }
}

/// Additive rank weights: any multiset of up to seven of them sums to a
/// value that identifies the multiset, and seven of them stay below 1 << 23.
pub open spec fn spec_rank_value(rank: Rank) -> int {
    match rank {
        Rank::Ace => 1479181,
        Rank::King => 636345,
        Rank::Queen => 262349,
        Rank::Jack => 83661,
        Rank::Ten => 22854,
        Rank::Nine => 8698,
        Rank::Eight => 2031,
        Rank::Seven => 453,
        Rank::Six => 98,
        Rank::Five => 22,
        Rank::Four => 5,
        Rank::Three => 1,
        Rank::Two => 0,
    }
}

/// Additive suit weights: any multiset of exactly seven of them sums to a
/// value that identifies how many cards of each suit are present.
pub open spec fn spec_suit_value(suit: Suit) -> int {
    match suit {
        Suit::Spades => 0,
        Suit::Hearts => 1,
        Suit::Diamonds => 8,
        Suit::Clubs => 57,
    }
}

/// The weight a card of this rank and suit carries: suit signal high,
/// rank signal low.
pub open spec fn spec_card_weight(rank: Rank, suit: Suit) -> int {
    spec_suit_value(suit) * 0x800000 + spec_rank_value(rank)
}

/// The dense index of a card in 0..52.
pub open spec fn spec_card_value(rank: Rank, suit: Suit) -> int {
    spec_rank_index(rank) * 4 + spec_suit_index(suit)
}

pub fn rank_value(rank: Rank) -> (v: u32)
    ensures
        v == spec_rank_value(rank),
{
    match rank {
        Rank::Ace => 1479181,
        Rank::King => 636345,
        Rank::Queen => 262349,
        Rank::Jack => 83661,
        Rank::Ten => 22854,
        Rank::Nine => 8698,
        Rank::Eight => 2031,
        Rank::Seven => 453,
        Rank::Six => 98,
        Rank::Five => 22,
        Rank::Four => 5,
        Rank::Three => 1,
        Rank::Two => 0,
    }
}

pub fn suit_value(suit: Suit) -> (v: u32)
    ensures
        v == spec_suit_value(suit),
{
    match suit {
        Suit::Spades => 0,
        Suit::Hearts => 1,
        Suit::Diamonds => 8,
        Suit::Clubs => 57,
    }
}

#[derive(Clone, Copy, PartialEq, Eq, Structural, Debug)]
pub struct Card {
    pub rank: Rank,
    pub suit: Suit,
    /// Dense index in 0..52; identifies the (rank, suit) pair.
    pub value: usize,
    /// Additive weight: suit weight at bit 23 and above, rank weight below.
    pub weight: u32,
}

impl Card {
    /// A card is well formed when its cached index and weight agree with its
    /// rank and suit.
    pub open spec fn wf(self) -> bool {
        &&& self.value == spec_card_value(self.rank, self.suit)
        &&& self.weight == spec_card_weight(self.rank, self.suit)
    }

    /// The unique well-formed card of a given rank and suit.
    pub open spec fn spec_new(rank: Rank, suit: Suit) -> Card {
        Card {
            rank,
            suit,
            value: spec_card_value(rank, suit) as usize,
            weight: spec_card_weight(rank, suit) as u32,
        }
    }

    pub fn new(rank: Rank, suit: Suit) -> (c: Card)
        ensures
            c == Card::spec_new(rank, suit),
            c.wf(),
            c.rank == rank,
            c.suit == suit,
            c.value < 52,
    {
        let ri: u32 = match rank {
            Rank::Ace => 0,
            Rank::King => 1,
            Rank::Queen => 2,
            Rank::Jack => 3,
            Rank::Ten => 4,
            Rank::Nine => 5,
            Rank::Eight => 6,
            Rank::Seven => 7,
            Rank::Six => 8,
            Rank::Five => 9,
            Rank::Four => 10,
            Rank::Three => 11,
            Rank::Two => 12,
        };
        let si: u32 = match suit {
            Suit::Spades => 0,
            Suit::Hearts => 1,
            Suit::Diamonds => 2,
            Suit::Clubs => 3,
        };
        let sv: u32 = suit_value(suit);
        assert((sv << 23u32) == sv * 0x800000) by (bit_vector)
            requires
                sv <= 57,
        ;
        Card {
            rank,
            suit,
            value: (ri * 4 + si) as usize,
            weight: (sv << FLUSH_BIT_SHIFT) + rank_value(rank),
        }
    }

    /// One card of the given suit for each rank, in canonical rank order.
    pub fn set(suit: Suit) -> (cards: Vec<Card>)
        ensures
            cards@.len() == 13,
            forall|i: int|
                0 <= i < 13 ==> cards@[i] == Card::spec_new(spec_rank_of_index(i), suit),
    {
        let mut cards: Vec<Card> = Vec::new();
        cards.push(Card::new(Rank::Ace, suit));
        cards.push(Card::new(Rank::King, suit));
        cards.push(Card::new(Rank::Queen, suit));
        cards.push(Card::new(Rank::Jack, suit));
        cards.push(Card::new(Rank::Ten, suit));
        cards.push(Card::new(Rank::Nine, suit));
        cards.push(Card::new(Rank::Eight, suit));
        cards.push(Card::new(Rank::Seven, suit));
        cards.push(Card::new(Rank::Six, suit));
        cards.push(Card::new(Rank::Five, suit));
        cards.push(Card::new(Rank::Four, suit));
        cards.push(Card::new(Rank::Three, suit));
        cards.push(Card::new(Rank::Two, suit));
        cards
    }

    /// Parses a two-character card code (rank letter then suit letter).
    pub fn parse(code: &str) -> (r: Result<Card, Error>)
        ensures
            r is Ok <==> spec_code_parses(code@),
            r is Ok ==> r->Ok_0 == spec_parsed_card(code@) && r->Ok_0.wf(),
            r is Err ==> r->Err_0 is Parse,
    {
        let n = code.unicode_len();
        if n != 2 {
            return Err(Error::Parse(code.to_owned()));
        }
        let rank = match rank_from_char(code.get_char(0)) {
            Some(rank) => rank,
            None => {
                return Err(Error::Parse(code.to_owned()));
            },
        };
        let suit = match suit_from_char(code.get_char(1)) {
            Some(suit) => suit,
            None => {
                return Err(Error::Parse(code.to_owned()));
            },
        };
        Ok(Card::new(rank, suit))
    }

    /// The two-character code of this card, the inverse of `parse`.
    pub fn code(&self) -> (s: String)
        ensures
            s@ == seq![spec_rank_char(self.rank), spec_suit_char(self.suit)],
    {
        let r = rank_str(self.rank);
        let s = String::from_str(r);
        s.concat(suit_str(self.suit))
    }
}

/// The rank at a canonical position (inverse of `spec_rank_index`).
pub open spec fn spec_rank_of_index(i: int) -> Rank {
    if i == 0 {
        Rank::Ace
    } else if i == 1 {
        Rank::King
    } else if i == 2 {
        Rank::Queen
    } else if i == 3 {
        Rank::Jack
    } else if i == 4 {
        Rank::Ten
    } else if i == 5 {
        Rank::Nine
    } else if i == 6 {
        Rank::Eight
    } else if i == 7 {
        Rank::Seven
    } else if i == 8 {
        Rank::Six
    } else if i == 9 {
        Rank::Five
    } else if i == 10 {
        Rank::Four
    } else if i == 11 {
        Rank::Three
    } else {
        Rank::Two
    }
}

/// The canonical code letter of a rank.
pub open spec fn spec_rank_char(rank: Rank) -> char {
    match rank {
        Rank::Ace => 'A',
        Rank::King => 'K',
        Rank::Queen => 'Q',
        Rank::Jack => 'J',
        Rank::Ten => 'T',
        Rank::Nine => '9',
        Rank::Eight => '8',
        Rank::Seven => '7',
        Rank::Six => '6',
        Rank::Five => '5',
        Rank::Four => '4',
        Rank::Three => '3',
        Rank::Two => '2',
    }
}

/// The canonical code letter of a suit.
pub open spec fn spec_suit_char(suit: Suit) -> char {
    match suit {
        Suit::Spades => 's',
        Suit::Hearts => 'h',
        Suit::Diamonds => 'd',
        Suit::Clubs => 'c',
    }
}

/// The rank whose code letter is `c`, if any.
pub open spec fn spec_rank_of_char(c: char) -> Option<Rank> {
    if c == 'A' {
        Some(Rank::Ace)
    } else if c == 'K' {
        Some(Rank::King)
    } else if c == 'Q' {
        Some(Rank::Queen)
    } else if c == 'J' {
        Some(Rank::Jack)
    } else if c == 'T' {
        Some(Rank::Ten)
    } else if c == '9' {
        Some(Rank::Nine)
    } else if c == '8' {
        Some(Rank::Eight)
    } else if c == '7' {
        Some(Rank::Seven)
    } else if c == '6' {
        Some(Rank::Six)
    } else if c == '5' {
        Some(Rank::Five)
    } else if c == '4' {
        Some(Rank::Four)
    } else if c == '3' {
        Some(Rank::Three)
    } else if c == '2' {
        Some(Rank::Two)
    } else {
        None
    }
}

/// The suit whose code letter is `c`, if any.
pub open spec fn spec_suit_of_char(c: char) -> Option<Suit> {
    if c == 's' {
        Some(Suit::Spades)
    } else if c == 'h' {
        Some(Suit::Hearts)
    } else if c == 'd' {
        Some(Suit::Diamonds)
    } else if c == 'c' {
        Some(Suit::Clubs)
    } else {
        None
    }
}

/// Whether a character sequence is a valid two-letter card code.
pub open spec fn spec_code_parses(s: Seq<char>) -> bool {
    &&& s.len() == 2
    &&& spec_rank_of_char(s[0]) is Some
    &&& spec_suit_of_char(s[1]) is Some
}

/// The card a valid two-letter code denotes.
pub open spec fn spec_parsed_card(s: Seq<char>) -> Card {
    Card::spec_new(spec_rank_of_char(s[0])->0, spec_suit_of_char(s[1])->0)
}

pub fn rank_from_char(c: char) -> (r: Option<Rank>)
    ensures
        r == spec_rank_of_char(c),
{
    match c {
        'A' => Some(Rank::Ace),
        'K' => Some(Rank::King),
        'Q' => Some(Rank::Queen),
        'J' => Some(Rank::Jack),
        'T' => Some(Rank::Ten),
        '9' => Some(Rank::Nine),
        '8' => Some(Rank::Eight),
        '7' => Some(Rank::Seven),
        '6' => Some(Rank::Six),
        '5' => Some(Rank::Five),
        '4' => Some(Rank::Four),
        '3' => Some(Rank::Three),
        '2' => Some(Rank::Two),
        _ => None,
    }
}

pub fn suit_from_char(c: char) -> (r: Option<Suit>)
    ensures
        r == spec_suit_of_char(c),
{
    match c {
        's' => Some(Suit::Spades),
        'h' => Some(Suit::Hearts),
        'd' => Some(Suit::Diamonds),
        'c' => Some(Suit::Clubs),
        _ => None,
    }
}

fn rank_str(rank: Rank) -> (s: &'static str)
    ensures
        s@ == seq![spec_rank_char(rank)],
{
    proof {
        reveal_strlit("A");
        reveal_strlit("K");
        reveal_strlit("Q");
        reveal_strlit("J");
        reveal_strlit("T");
        reveal_strlit("9");
        reveal_strlit("8");
        reveal_strlit("7");
        reveal_strlit("6");
        reveal_strlit("5");
        reveal_strlit("4");
        reveal_strlit("3");
        reveal_strlit("2");
    }
    let s = match rank {
        Rank::Ace => "A",
        Rank::King => "K",
        Rank::Queen => "Q",
        Rank::Jack => "J",
        Rank::Ten => "T",
        Rank::Nine => "9",
        Rank::Eight => "8",
        Rank::Seven => "7",
        Rank::Six => "6",
        Rank::Five => "5",
        Rank::Four => "4",
        Rank::Three => "3",
        Rank::Two => "2",
    };
    proof {
        assert(s@ =~= seq![spec_rank_char(rank)]);
    }
    s
}

fn suit_str(suit: Suit) -> (s: &'static str)
    ensures
        s@ == seq![spec_suit_char(suit)],
{
    proof {
        reveal_strlit("s");
        reveal_strlit("h");
        reveal_strlit("d");
        reveal_strlit("c");
    }
    let s = match suit {
        Suit::Spades => "s",
        Suit::Hearts => "h",
        Suit::Diamonds => "d",
        Suit::Clubs => "c",
    };
    proof {
        assert(s@ =~= seq![spec_suit_char(suit)]);
    }
    s
}

/// The largest weight any well-formed card can carry.
pub const MAX_CARD_WEIGHT: u32 = 479629837;

/// Sum of the weights of a sequence of cards, the evaluator's raw input.
pub open spec fn spec_weight(s: Seq<Card>) -> int
    decreases s.len(),
{
    if s.len() == 0 {
        0
    } else {
        spec_weight(s.drop_last()) + s.last().weight
    }
}

pub proof fn lemma_card_weight_bound(c: Card)
    requires
        c.wf(),
    ensures
        c.weight <= MAX_CARD_WEIGHT,
{
}

/// The weight sum is bounded by the count of cards times the largest weight.
pub proof fn lemma_weight_bound(s: Seq<Card>)
    requires
        forall|i: int| 0 <= i < s.len() ==> (#[trigger] s[i]).wf(),
    ensures
        0 <= spec_weight(s) <= s.len() * MAX_CARD_WEIGHT,
    decreases s.len(),
{
    if s.len() > 0 {
        lemma_weight_bound(s.drop_last());
        lemma_card_weight_bound(s.last());
    }
}

/// Removing one card removes exactly its weight from the sum.
pub proof fn lemma_weight_remove(s: Seq<Card>, i: int)
    requires
        0 <= i < s.len(),
    ensures
        spec_weight(s) == s[i].weight + spec_weight(s.remove(i)),
    decreases s.len(),
{
    if i == s.len() - 1 {
        assert(s.remove(i) =~= s.drop_last());
    } else {
        lemma_weight_remove(s.drop_last(), i);
        assert(s.remove(i).drop_last() =~= s.drop_last().remove(i));
        assert(s.remove(i).last() == s.last());
    }
}

/// The weight sum depends only on which cards are present, not their order.
pub proof fn lemma_weight_permutation(s1: Seq<Card>, s2: Seq<Card>)
    requires
        s1.to_multiset() == s2.to_multiset(),
    ensures
        spec_weight(s1) == spec_weight(s2),
    decreases s1.len(),
{
    broadcast use vstd::seq_lib::group_to_multiset_ensures;

    if s1.len() == 0 {
        assert(s2.to_multiset().len() == 0);
    } else {
        let c = s1.last();
        let i = s1.len() - 1;
        assert(s1.contains(c));
        assert(s2.to_multiset().count(c) > 0);
        assert(s2.contains(c));
        let j = choose|j: int| 0 <= j < s2.len() && s2[j] == c;
        lemma_weight_remove(s1, i);
        lemma_weight_remove(s2, j);
        assert(s1.remove(i).to_multiset() =~= s2.remove(j).to_multiset());
        lemma_weight_permutation(s1.remove(i), s2.remove(j));
    }
}

/// Sums the weights of up to seven cards.
pub fn weight(hand: &Vec<Card>) -> (w: u64)
    requires
        hand@.len() <= 7,
        forall|i: int| 0 <= i < hand@.len() ==> (#[trigger] hand@[i]).wf(),
    ensures
        w == spec_weight(hand@),
{
    let mut acc: u32 = 0;
    let mut i: usize = 0;
    while i < hand.len()
        invariant
            i <= hand@.len() <= 7,
            forall|k: int| 0 <= k < hand@.len() ==> (#[trigger] hand@[k]).wf(),
            acc == spec_weight(hand@.take(i as int)),
        decreases hand@.len() - i,
    {
        proof {
            lemma_weight_bound(hand@.take(i as int));
            lemma_card_weight_bound(hand@[i as int]);
            assert(hand@.take(i as int + 1).drop_last() =~= hand@.take(i as int));
            assert(hand@.take(i as int + 1).last() == hand@[i as int]);
        }
        acc = acc + hand[i].weight;
        i = i + 1;
    }
    proof {
        assert(hand@.take(hand@.len() as int) =~= hand@);
    }
    acc as u64
}

} // verus!
