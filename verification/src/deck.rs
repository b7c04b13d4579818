//! Deck engine: the 52-card universe, withdrawal of dealt cards, and random
//! completion of the community board.

use crate::card::{spec_rank_of_index, Card, Rank, Suit};
use crate::error::Error;
use crate::hand::Hand;
use rand::seq::SliceRandom;
use vstd::multiset::Multiset;
use vstd::prelude::*;

verus! {

broadcast use
    vstd::seq_lib::group_to_multiset_ensures,
    vstd::multiset::group_multiset_axioms,
;

/// The suit at a canonical position (Spades first).
pub open spec fn spec_suit_of_index(i: int) -> Suit {
    if i == 0 {
        Suit::Spades
    } else if i == 1 {
        Suit::Hearts
    } else if i == 2 {
        Suit::Diamonds
    } else {
        Suit::Clubs
    }
}

/// The canonical order of the 52-card universe: all spades in rank order,
/// then hearts, diamonds and clubs.
pub open spec fn spec_full_deck() -> Seq<Card> {
    Seq::new(52, |i: int| Card::spec_new(spec_rank_of_index(i % 13), spec_suit_of_index(i / 13)))
}

/// The 52-card universe in its canonical order.
pub fn deck() -> (d: Vec<Card>)
    ensures
        d@ == spec_full_deck(),
{
    let mut d = Card::set(Suit::Spades);
    let mut hearts = Card::set(Suit::Hearts);
    let mut diamonds = Card::set(Suit::Diamonds);
    let mut clubs = Card::set(Suit::Clubs);
    d.append(&mut hearts);
    d.append(&mut diamonds);
    d.append(&mut clubs);
    proof {
        assert(d@ =~= spec_full_deck());
    }
    d
}

/// The full deck holds exactly 52 well-formed cards, no two alike, and every
/// (rank, suit) pair appears in it.
pub proof fn lemma_full_deck_complete()
    ensures
        spec_full_deck().len() == 52,
        forall|i: int| 0 <= i < 52 ==> (#[trigger] spec_full_deck()[i]).wf(),
        spec_full_deck().no_duplicates(),
        forall|rank: Rank, suit: Suit|
            #[trigger] spec_full_deck().contains(Card::spec_new(rank, suit)),
{
    assert forall|a: int, b: int|
        0 <= a < 13 && 0 <= b < 13 && a != b implies spec_rank_of_index(a)
        != spec_rank_of_index(b) by {}
    assert forall|i: int, j: int| 0 <= i < j < 52 implies spec_full_deck()[i]
        != spec_full_deck()[j] by {
        if i % 13 == j % 13 && i / 13 == j / 13 {
            assert(i == j);
        }
    }
    assert forall|rank: Rank, suit: Suit| #[trigger]
        spec_full_deck().contains(Card::spec_new(rank, suit)) by {
        let ri: int = match rank {
            Rank::Ace => 0,
            Rank::King => 1,
            Rank::Queen => 2,
            Rank::Jack => 3,
            Rank::Ten => 4,
            Rank::Nine => 5,
            Rank::Eight => 6,
            Rank::Seven => 7,
            Rank::Six => 8,
            Rank::Five => 9,
            Rank::Four => 10,
            Rank::Three => 11,
            Rank::Two => 12,
        };
        let si: int = match suit {
            Suit::Spades => 0,
            Suit::Hearts => 1,
            Suit::Diamonds => 2,
            Suit::Clubs => 3,
        };
        assert(spec_full_deck()[si * 13 + ri] == Card::spec_new(rank, suit));
    }
}

/// The cards of a list of hands, flattened in order.
pub open spec fn spec_hand_cards(hands: Seq<Hand>) -> Seq<Card> {
    Seq::new(
        hands.len() * 2,
        |i: int| if i % 2 == 0 {
            hands[i / 2].cards@[0]
        } else {
            hands[i / 2].cards@[1]
        },
    )
}

/// Every card the withdrawal must take out of the deck: each hand's two
/// cards, then the known board.
pub open spec fn spec_removal_list(hands: Seq<Hand>, board: Seq<Card>) -> Seq<Card> {
    spec_hand_cards(hands) + board
}

/// Removes the listed cards from the deck in order, each matching the first
/// equal card still present; fails with the first card that is absent.
pub open spec fn spec_withdraw(deck: Seq<Card>, cards: Seq<Card>) -> Result<Seq<Card>, Card>
    decreases cards.len(),
{
    if cards.len() == 0 {
        Ok(deck)
    } else {
        match deck.index_of_first(cards[0]) {
            Some(i) => spec_withdraw(deck.remove(i), cards.drop_first()),
            None => Err(cards[0]),
        }
    }
}

/// A successful withdrawal splits the deck's contents into the remainder and
/// the removed cards.
pub proof fn lemma_withdraw_ok_multiset(deck: Seq<Card>, cards: Seq<Card>)
    requires
        spec_withdraw(deck, cards) is Ok,
    ensures
        spec_withdraw(deck, cards)->Ok_0.len() + cards.len() == deck.len(),
        deck.to_multiset() == spec_withdraw(deck, cards)->Ok_0.to_multiset().add(
            cards.to_multiset(),
        ),
    decreases cards.len(),
{
    let res = spec_withdraw(deck, cards)->Ok_0;
    if cards.len() == 0 {
        assert(cards.to_multiset() =~= Multiset::<Card>::empty());
        assert(deck.to_multiset() =~= res.to_multiset().add(cards.to_multiset()));
    } else {
        deck.index_of_first_ensures(cards[0]);
        let i = deck.index_of_first(cards[0])->0;
        lemma_withdraw_ok_multiset(deck.remove(i), cards.drop_first());
        let x = cards[0];
        let rest = cards.drop_first();
        assert(deck.remove(i).to_multiset() == deck.to_multiset().remove(x));
        assert(deck.to_multiset().count(x) > 0) by {
            assert(deck.contains(x));
        }
        assert(deck.to_multiset() =~= deck.to_multiset().remove(x).insert(x));
        assert(cards.remove(0) =~= rest);
        assert(rest.to_multiset() == cards.to_multiset().remove(x));
        assert(cards.to_multiset().count(x) > 0) by {
            assert(cards.contains(x));
        }
        assert(cards.to_multiset() =~= rest.to_multiset().insert(x));
        assert(deck.to_multiset().remove(x) == res.to_multiset().add(rest.to_multiset()));
        assert(res.to_multiset().add(rest.to_multiset()).insert(x) =~= res.to_multiset().add(
            rest.to_multiset().insert(x),
        ));
        assert(deck.to_multiset() =~= res.to_multiset().add(cards.to_multiset()));
    }
}

/// Withdrawal postcondition: from a duplicate-free deck, a successful
/// withdrawal shrinks the deck by exactly the number of removed cards, and
/// none of the removed cards remains in it.
pub proof fn lemma_withdraw_postcondition(deck: Seq<Card>, cards: Seq<Card>)
    requires
        deck.no_duplicates(),
        spec_withdraw(deck, cards) is Ok,
    ensures
        spec_withdraw(deck, cards)->Ok_0.len() == deck.len() - cards.len(),
        forall|i: int|
            0 <= i < cards.len() ==> !spec_withdraw(deck, cards)->Ok_0.contains(cards[i]),
{
    let res = spec_withdraw(deck, cards)->Ok_0;
    lemma_withdraw_ok_multiset(deck, cards);
    deck.lemma_multiset_has_no_duplicates();
    assert forall|i: int| 0 <= i < cards.len() implies !res.contains(cards[i]) by {
        let c = cards[i];
        assert(cards.contains(c));
        assert(cards.to_multiset().count(c) > 0);
        assert(deck.to_multiset().count(c) == res.to_multiset().count(c)
            + cards.to_multiset().count(c));
        if deck.to_multiset().contains(c) {
            assert(deck.to_multiset().count(c) == 1);
        } else {
            assert(deck.to_multiset().count(c) == 0);
        }
        assert(res.to_multiset().count(c) == 0);
    }
}

/// What a successful withdrawal leaves is still duplicate-free, and every
/// card of it was in the deck before.
pub proof fn lemma_withdraw_preserves(deck: Seq<Card>, cards: Seq<Card>)
    requires
        deck.no_duplicates(),
        spec_withdraw(deck, cards) is Ok,
    ensures
        spec_withdraw(deck, cards)->Ok_0.no_duplicates(),
        forall|x: Card|
            spec_withdraw(deck, cards)->Ok_0.contains(x) ==> #[trigger] deck.contains(x),
{
    let res = spec_withdraw(deck, cards)->Ok_0;
    lemma_withdraw_ok_multiset(deck, cards);
    deck.lemma_multiset_has_no_duplicates();
    assert forall|x: Card| res.contains(x) implies #[trigger] deck.contains(x) by {
        assert(res.to_multiset().count(x) > 0);
        assert(deck.to_multiset().count(x) == res.to_multiset().count(x)
            + cards.to_multiset().count(x));
        assert(deck.to_multiset().count(x) > 0);
    }
    assert forall|x: Card| res.to_multiset().contains(x) implies res.to_multiset().count(x)
        == 1 by {
        assert(deck.to_multiset().count(x) == res.to_multiset().count(x)
            + cards.to_multiset().count(x));
        assert(deck.contains(x));
        assert(deck.to_multiset().count(x) == 1);
    }
    res.lemma_multiset_has_no_duplicates_conv();
}

/// Duplicate detection: withdrawing a list that names some card twice from a
/// duplicate-free deck always fails.
pub proof fn lemma_duplicate_card_detected(deck: Seq<Card>, cards: Seq<Card>, i: int, j: int)
    requires
        deck.no_duplicates(),
        0 <= i < j < cards.len(),
        cards[i] == cards[j],
    ensures
        spec_withdraw(deck, cards) is Err,
{
    if spec_withdraw(deck, cards) is Ok {
        let res = spec_withdraw(deck, cards)->Ok_0;
        lemma_withdraw_ok_multiset(deck, cards);
        deck.lemma_multiset_has_no_duplicates();
        let c = cards[i];
        assert(cards.remove(j).to_multiset() == cards.to_multiset().remove(cards[j]));
        assert(cards.remove(j)[i] == c);
        assert(cards.remove(j).contains(c));
        assert(cards.remove(j).to_multiset().count(c) > 0);
        assert(cards.to_multiset().count(c) >= 2);
        assert(deck.to_multiset().count(c) == res.to_multiset().count(c)
            + cards.to_multiset().count(c));
        if deck.to_multiset().contains(c) {
            assert(deck.to_multiset().count(c) == 1);
        } else {
            assert(deck.to_multiset().count(c) == 0);
        }
        assert(false);
    }
}

/// The position of the first card equal to `card`, if any.
fn find_card(deck: &Vec<Card>, card: Card) -> (r: Option<usize>)
    ensures
        r is Some <==> deck@.index_of_first(card) is Some,
        r is Some ==> r->0 == deck@.index_of_first(card)->0,
{
    proof {
        deck@.index_of_first_ensures(card);
    }
    let mut i: usize = 0;
    while i < deck.len()
        invariant
            i <= deck@.len(),
            forall|k: int| 0 <= k < i ==> deck@[k] != card,
        decreases deck@.len() - i,
    {
        if deck[i] == card {
            proof {
                deck@.index_of_first_ensures(card);
            }
            return Some(i);
        }
        i = i + 1;
    }
    proof {
        deck@.index_of_first_ensures(card);
        if deck@.index_of_first(card) is Some {
            let k = deck@.index_of_first(card)->0;
            assert(deck@[k] == card);
            assert(false);
        }
    }
    None
}

/// Removes every card of every hand and every board card from the deck,
/// exactly once each; fails with the first card that is not present, which
/// signals a card dealt twice. On failure the deck is left unchanged.
#[verifier::loop_isolation(false)]
pub fn withdraw(deck: &mut Vec<Card>, hands: &Vec<Hand>, community: &Vec<Card>) -> (r: Result<
    (),
    Error,
>)
    ensures
        r is Ok <==> spec_withdraw(old(deck)@, spec_removal_list(hands@, community@)) is Ok,
        r is Ok ==> final(deck)@ == spec_withdraw(
            old(deck)@,
            spec_removal_list(hands@, community@),
        )->Ok_0,
        r is Err ==> *final(deck) == *old(deck) && r->Err_0 == Error::Duplicate(
            spec_withdraw(old(deck)@, spec_removal_list(hands@, community@))->Err_0,
        ),
{
    let ghost deck0 = deck@;
    let ghost full = spec_removal_list(hands@, community@);
    proof {
        assert(deck0 == old(deck)@);
    }
    // Flatten the cards to remove, in the order the contract names.
    let mut to_remove: Vec<Card> = Vec::new();
    let mut i: usize = 0;
    while i < hands.len()
        invariant
            i <= hands@.len(),
            to_remove@ =~= spec_hand_cards(hands@.take(i as int)),
        decreases hands@.len() - i,
    {
        to_remove.push(hands[i].cards[0]);
        to_remove.push(hands[i].cards[1]);
        proof {
            assert(to_remove@ =~= spec_hand_cards(hands@.take(i as int + 1)));
        }
        i = i + 1;
    }
    proof {
        assert(hands@.take(hands@.len() as int) =~= hands@);
    }
    let mut j: usize = 0;
    while j < community.len()
        invariant
            j <= community@.len(),
            to_remove@ =~= spec_hand_cards(hands@) + community@.take(j as int),
        decreases community@.len() - j,
    {
        to_remove.push(community[j]);
        j = j + 1;
    }
    proof {
        assert(community@.take(community@.len() as int) =~= community@);
        assert(to_remove@ =~= full);
    }
    // Work on a copy so that a failed withdrawal leaves the deck untouched.
    let mut work: Vec<Card> = Vec::new();
    let mut k: usize = 0;
    while k < deck.len()
        invariant
            k <= deck@.len(),
            work@ =~= deck@.take(k as int),
        decreases deck@.len() - k,
    {
        work.push(deck[k]);
        k = k + 1;
    }
    proof {
        assert(work@ =~= deck@);
        assert(full.skip(0) =~= full);
    }
    let mut n: usize = 0;
    while n < to_remove.len()
        invariant
            n <= to_remove@.len(),
            to_remove@ == full,
            deck@ == deck0,
            spec_withdraw(deck0, full) == spec_withdraw(work@, full.skip(n as int)),
        decreases to_remove@.len() - n,
    {
        let card = to_remove[n];
        let ghost rest = full.skip(n as int);
        proof {
            assert(rest[0] == card);
            assert(rest.drop_first() =~= full.skip(n as int + 1));
        }
        match find_card(&work, card) {
            Some(pos) => {
                let ghost before = work@;
                proof {
                    work@.index_of_first_ensures(card);
                }
                work.remove(pos);
                proof {
                    assert(before.index_of_first(card) == Some(pos as int));
                    assert(spec_withdraw(before, rest) == spec_withdraw(
                        before.remove(pos as int),
                        rest.drop_first(),
                    ));
                    assert(work@ == before.remove(pos as int));
                }
            },
            None => {
                proof {
                    work@.index_of_first_ensures(card);
                    assert(spec_withdraw(work@, rest) == Err::<Seq<Card>, Card>(card));
                }
                return Err(Error::Duplicate(card));
            },
        }
        n = n + 1;
    }
    proof {
        assert(full.skip(full.len() as int) =~= Seq::<Card>::empty());
    }
    *deck = work;
    Ok(())
}

/// Whether `idx` lists pairwise distinct positions of `deck` from which the
/// cards of `drawn` were taken, in order.
pub open spec fn spec_drawn_with(deck: Seq<Card>, drawn: Seq<Card>, idx: Seq<int>) -> bool {
    &&& idx.len() == drawn.len()
    &&& forall|a: int|
        0 <= a < idx.len() ==> 0 <= #[trigger] idx[a] < deck.len() && drawn[a] == deck[idx[a]]
    &&& forall|a: int, b: int| 0 <= a < b < idx.len() ==> #[trigger] idx[a] != #[trigger] idx[b]
}

/// Whether `drawn` consists of cards taken from pairwise distinct positions
/// of `deck`, in some order.
pub open spec fn spec_drawn_from(deck: Seq<Card>, drawn: Seq<Card>) -> bool {
    exists|idx: Seq<int>| #[trigger] spec_drawn_with(deck, drawn, idx)
}

/// Cards drawn from distinct positions of a duplicate-free deck are
/// themselves duplicate-free, and all of them come from the deck.
pub proof fn lemma_drawn_properties(deck: Seq<Card>, drawn: Seq<Card>)
    requires
        deck.no_duplicates(),
        spec_drawn_from(deck, drawn),
    ensures
        drawn.no_duplicates(),
        forall|a: int| 0 <= a < drawn.len() ==> deck.contains(#[trigger] drawn[a]),
{
    let idx = choose|idx: Seq<int>| #[trigger] spec_drawn_with(deck, drawn, idx);
    assert forall|a: int| 0 <= a < drawn.len() implies deck.contains(#[trigger] drawn[a]) by {
        assert(drawn[a] == deck[idx[a]]);
    }
    assert forall|a: int, b: int| 0 <= a < b < drawn.len() implies drawn[a] != drawn[b] by {
        assert(drawn[a] == deck[idx[a]]);
        assert(drawn[b] == deck[idx[b]]);
        assert(idx[a] != idx[b]);
    }
}

/// Relies on rand's `thread_rng` and `SliceRandom::choose_multiple`: draws
/// `amount` elements of the slice from pairwise distinct positions, uniformly
/// at random, using a generator local to this call. When `amount` is at most
/// the slice's length, exactly `amount` elements come back.
#[verifier::external_body]
fn choose_distinct(deck: &Vec<Card>, amount: usize) -> (r: Vec<Card>)
    requires
        amount <= deck@.len(),
    ensures
        r@.len() == amount,
        spec_drawn_from(deck@, r@),
{
    deck.choose_multiple(&mut rand::thread_rng(), amount).cloned().collect()
}

/// A five-card board: the already-known cards of `board`, preceded by
/// `5 - board.len()` cards drawn at random from the deck.
pub fn community(deck: &Vec<Card>, board: &Vec<Card>) -> (r: Vec<Card>)
    requires
        board@.len() <= 5,
        deck@.len() >= 5 - board@.len(),
    ensures
        r@.len() == 5,
        r@.skip(5 - board@.len() as int) =~= board@,
        spec_drawn_from(deck@, r@.take(5 - board@.len() as int)),
{
    let draw = if board.len() > 5 {
        0
    } else {
        5 - board.len()
    };
    let mut cards = choose_distinct(deck, draw);
    let ghost drawn = cards@;
    let mut i: usize = 0;
    while i < board.len()
        invariant
            i <= board@.len(),
            cards@ =~= drawn + board@.take(i as int),
        decreases board@.len() - i,
    {
        cards.push(board[i]);
        i = i + 1;
    }
    proof {
        assert(board@.take(board@.len() as int) =~= board@);
        assert(cards@.skip(5 - board@.len() as int) =~= board@);
        assert(cards@.take(5 - board@.len() as int) =~= drawn);
    }
    cards
}

} // verus!
