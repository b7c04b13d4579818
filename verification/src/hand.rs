//! A hand: two hole cards together with the counters the simulation
//! accumulates for it.

use crate::card::{
    lemma_weight_bound, lemma_weight_permutation, spec_code_parses, spec_parsed_card,
    spec_rank_char, spec_suit_char, spec_weight, weight, Card,
};
use crate::error::Error;
use crate::tables::Tables;
use vstd::prelude::*;

verus! {

#[derive(Clone, Copy, Debug)]
pub struct Hand {
    pub cards: [Card; 2],
    /// Trials in which this hand alone held the highest score.
    pub wins: usize,
    /// Trials in which this hand shared the highest score.
    pub ties: usize,
    /// Trials this hand took part in.
    pub runs: usize,
}

impl Hand {
    /// A hand is well formed when both of its cards are.
    pub open spec fn wf(self) -> bool {
        &&& self.cards@[0].wf()
        &&& self.cards@[1].wf()
    }

    /// The hand's counters start at zero.
    pub fn new(cards: [Card; 2]) -> (h: Hand)
        ensures
            h.cards == cards,
            h.wins == 0,
            h.ties == 0,
            h.runs == 0,
    {
        Hand { cards, wins: 0, ties: 0, runs: 0 }
    }

    /// The two hole cards, in order.
    pub fn cards(&self) -> (r: Vec<Card>)
        ensures
            r@ =~= seq![self.cards@[0], self.cards@[1]],
    {
        let mut r: Vec<Card> = Vec::new();
        r.push(self.cards[0]);
        r.push(self.cards[1]);
        r
    }

    /// Credits a win.
    pub fn win(&mut self)
        requires
            old(self).wins < usize::MAX,
        ensures
            final(self).wins == old(self).wins + 1,
            final(self).ties == old(self).ties,
            final(self).runs == old(self).runs,
            final(self).cards == old(self).cards,
    {
        self.wins = self.wins + 1;
    }

    /// Credits a tie.
    pub fn tie(&mut self)
        requires
            old(self).ties < usize::MAX,
        ensures
            final(self).ties == old(self).ties + 1,
            final(self).wins == old(self).wins,
            final(self).runs == old(self).runs,
            final(self).cards == old(self).cards,
    {
        self.ties = self.ties + 1;
    }

    /// Counts one finished trial.
    pub fn ran(&mut self)
        requires
            old(self).runs < usize::MAX,
        ensures
            final(self).runs == old(self).runs + 1,
            final(self).wins == old(self).wins,
            final(self).ties == old(self).ties,
            final(self).cards == old(self).cards,
    {
        self.runs = self.runs + 1;
    }

    /// Parses a four-character hand code: two concatenated card codes.
    pub fn parse(code: &str) -> (r: Result<Hand, Error>)
        ensures
            r is Ok <==> spec_hand_parses(code@),
            r is Ok ==> r->Ok_0.cards@ =~= seq![
                spec_parsed_card(code@.subrange(0, 2)),
                spec_parsed_card(code@.subrange(2, 4)),
            ] && r->Ok_0.wf() && r->Ok_0.wins == 0 && r->Ok_0.ties == 0 && r->Ok_0.runs == 0,
            r is Err ==> r->Err_0 is Parse,
    {
        let n = code.unicode_len();
        if n != 4 {
            return Err(Error::Parse(code.to_owned()));
        }
        let first = code.substring_char(0, 2);
        let second = code.substring_char(2, 4);
        let card1 = match Card::parse(first) {
            Ok(card) => card,
            Err(e) => {
                return Err(e);
            },
        };
        let card2 = match Card::parse(second) {
            Ok(card) => card,
            Err(e) => {
                return Err(e);
            },
        };
        Ok(Hand::new([card1, card2]))
    }

    /// The four-character code of this hand, the inverse of `parse`.
    pub fn code(&self) -> (s: String)
        ensures
            s@ == seq![
                spec_rank_char(self.cards@[0].rank),
                spec_suit_char(self.cards@[0].suit),
                spec_rank_char(self.cards@[1].rank),
                spec_suit_char(self.cards@[1].suit),
            ],
    {
        let first = self.cards[0].code();
        let second = self.cards[1].code();
        let s = first.concat(second.as_str());
        proof {
            assert(s@ =~= seq![
                spec_rank_char(self.cards@[0].rank),
                spec_suit_char(self.cards@[0].suit),
                spec_rank_char(self.cards@[1].rank),
                spec_suit_char(self.cards@[1].suit),
            ]);
        }
        s
    }
}

/// Whether a character sequence is a valid four-letter hand code.
pub open spec fn spec_hand_parses(s: Seq<char>) -> bool {
    &&& s.len() == 4
    &&& spec_code_parses(s.subrange(0, 2))
    &&& spec_code_parses(s.subrange(2, 4))
}

/// The seven cards a hand is scored on: its two hole cards, then the board.
pub open spec fn spec_seven(hand: Hand, community: Seq<Card>) -> Seq<Card> {
    seq![hand.cards@[0], hand.cards@[1]] + community
}

/// The 13-bit rank-presence pattern of the flush suit `f`: the or of each
/// card's entry in the suit-Kronecker table.
pub open spec fn spec_or_masks(t: Tables, f: int, s: Seq<Card>) -> u16
    decreases s.len(),
{
    if s.len() == 0 {
        0u16
    } else {
        spec_or_masks(t, f, s.drop_last()) | t.suit_kronecker@[f]@[s.last().value as int]
    }
}

proof fn lemma_or_comm_assoc(a: u16, b: u16, c: u16)
    ensures
        (a | b) | c == (a | c) | b,
{
    assert((a | b) | c == (a | c) | b) by (bit_vector);
}

proof fn lemma_or13_bound(a: u16, b: u16)
    requires
        a < 8192,
        b < 8192,
    ensures
        (a | b) < 8192,
{
    assert(a < 8192 && b < 8192 ==> (a | b) < 8192) by (bit_vector);
}

/// Or-ing one card's mask out of order changes nothing.
proof fn lemma_or_masks_remove(t: Tables, f: int, s: Seq<Card>, i: int)
    requires
        0 <= i < s.len(),
    ensures
        spec_or_masks(t, f, s) == spec_or_masks(t, f, s.remove(i))
            | t.suit_kronecker@[f]@[s[i].value as int],
    decreases s.len(),
{
    if i == s.len() - 1 {
        assert(s.remove(i) =~= s.drop_last());
    } else {
        lemma_or_masks_remove(t, f, s.drop_last(), i);
        assert(s.remove(i).drop_last() =~= s.drop_last().remove(i));
        assert(s.remove(i).last() == s.last());
        lemma_or_comm_assoc(
            spec_or_masks(t, f, s.drop_last().remove(i)),
            t.suit_kronecker@[f]@[s[i].value as int],
            t.suit_kronecker@[f]@[s.last().value as int],
        );
    }
}

/// The rank-presence pattern depends only on which cards are present.
pub proof fn lemma_or_masks_permutation(t: Tables, f: int, s1: Seq<Card>, s2: Seq<Card>)
    requires
        s1.to_multiset() == s2.to_multiset(),
    ensures
        spec_or_masks(t, f, s1) == spec_or_masks(t, f, s2),
    decreases s1.len(),
{
    broadcast use vstd::seq_lib::group_to_multiset_ensures;

    if s1.len() == 0 {
        assert(s2.to_multiset().len() == 0);
    } else {
        let c = s1.last();
        let i = s1.len() - 1;
        assert(s1.contains(c));
        assert(s2.to_multiset().count(c) > 0);
        assert(s2.contains(c));
        let j = choose|j: int| 0 <= j < s2.len() && s2[j] == c;
        lemma_or_masks_remove(t, f, s1, i);
        lemma_or_masks_remove(t, f, s2, j);
        assert(s1.remove(i).to_multiset() =~= s2.remove(j).to_multiset());
        lemma_or_masks_permutation(t, f, s1.remove(i), s2.remove(j));
    }
}

/// The strength score of seven cards, as the lookup tables define it: the
/// weight sum's suit signal picks a flush suit, whose rank pattern indexes
/// the flush table; otherwise the low 23 bits of 31 times the sum walk the
/// two-level perfect hash.
pub open spec fn spec_rank(t: Tables, s: Seq<Card>) -> u16 {
    let w = spec_weight(s);
    let is_flush = t.flush_check@[w / 0x800000];
    if is_flush >= 0 {
        t.flush_ranks@[spec_or_masks(t, is_flush as int, s) as int]
    } else {
        let hash = (31 * w) % 0x800000;
        t.rank_hash@[t.offsets@[hash / 512] as int + hash % 512]
    }
}

/// The score depends only on which seven cards are evaluated, never on
/// their order.
pub proof fn lemma_rank_order_independent(t: Tables, s1: Seq<Card>, s2: Seq<Card>)
    requires
        s1.to_multiset() == s2.to_multiset(),
    ensures
        spec_rank(t, s1) == spec_rank(t, s2),
{
    lemma_weight_permutation(s1, s2);
    let w = spec_weight(s1);
    let is_flush = t.flush_check@[w / 0x800000];
    if is_flush >= 0 {
        lemma_or_masks_permutation(t, is_flush as int, s1, s2);
    }
}

proof fn lemma_card_value_bound(c: Card)
    requires
        c.wf(),
    ensures
        c.value < 52,
{
}

/// Scores a hand against a five-card board: a deterministic, pure lookup.
/// Higher scores mean stronger or equally strong seven-card hands.
#[verifier::loop_isolation(false)]
pub fn get_rank(hand: &Hand, community: &Vec<Card>, tables: &Tables) -> (score: u16)
    requires
        tables.wf(),
        hand.wf(),
        community@.len() == 5,
        forall|i: int| 0 <= i < 5 ==> (#[trigger] community@[i]).wf(),
    ensures
        score == spec_rank(*tables, spec_seven(*hand, community@)),
{
    let ghost seven_spec = spec_seven(*hand, community@);
    let mut seven: Vec<Card> = hand.cards();
    let mut i: usize = 0;
    while i < community.len()
        invariant
            i <= 5,
            seven@ =~= seq![hand.cards@[0], hand.cards@[1]] + community@.take(i as int),
        decreases 5 - i,
    {
        seven.push(community[i]);
        proof {
            assert(seven@ =~= seq![hand.cards@[0], hand.cards@[1]] + community@.take(
                i as int + 1,
            ));
        }
        i = i + 1;
    }
    proof {
        assert(community@.take(5) =~= community@);
        assert(seven@ =~= seven_spec);
        assert forall|k: int| 0 <= k < 7 implies (#[trigger] seven@[k]).wf() by {
            if k >= 2 {
                assert(seven@[k] == community@[k - 2]);
            }
        }
    }
    let w: u64 = weight(&seven);
    proof {
        lemma_weight_bound(seven@);
        assert(w <= 7 * 479629837);
        assert(w <= 3357408859 ==> w >> 23u64 == w / 0x800000 && w / 0x800000 <= 400)
            by (bit_vector);
    }
    let hi = (w >> 23u64) as usize;
    let is_flush = tables.flush_check[hi];
    if is_flush >= 0 {
        let suits = &tables.suit_kronecker[is_flush as usize];
        let mut mask: u16 = 0;
        let mut k: usize = 0;
        while k < 7
            invariant
                k <= 7,
                mask == spec_or_masks(*tables, is_flush as int, seven@.take(k as int)),
                mask < 8192,
            decreases 7 - k,
        {
            proof {
                lemma_card_value_bound(seven@[k as int]);
                assert(seven@.take(k as int + 1).drop_last() =~= seven@.take(k as int));
                assert(seven@.take(k as int + 1).last() == seven@[k as int]);
                lemma_or13_bound(mask, tables.suit_kronecker@[is_flush as int]@[seven@[k as int].value as int]);
            }
            mask = mask | suits[seven[k].value];
            k = k + 1;
        }
        proof {
            assert(seven@.take(7) =~= seven@);
        }
        tables.flush_ranks[mask as usize]
    } else {
        let prod: u64 = 31 * w;
        let hash: u64 = prod & 0x7fffff;
        proof {
            assert(prod & 0x7fffff == prod % 0x800000) by (bit_vector);
            assert(prod % 0x800000 < 0x800000) by (bit_vector);
            assert(hash < 0x800000 ==> (hash >> 9u64 == hash / 512 && hash / 512 < 16384 && (
            hash & 511) == hash % 512 && hash % 512 < 512)) by (bit_vector);
        }
        let row = (hash >> 9u64) as usize;
        let col = (hash & 511) as usize;
        let len = tables.rank_hash.len();
        proof {
            assert(row < 16384);
            assert(col < 512);
            assert(tables.offsets@[row as int] + 512 <= len);
        }
        tables.rank_hash[tables.offsets[row] + col]
    }
}

} // verus!
