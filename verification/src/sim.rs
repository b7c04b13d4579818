//! Simulation engine: runs independent Monte Carlo trials, scores every hand
//! on each trial's board, and accumulates win and tie counters.

use crate::card::{spec_code_parses, spec_parsed_card, Card};
use crate::deck::{
    community, deck, lemma_drawn_properties, lemma_full_deck_complete, lemma_withdraw_ok_multiset,
    lemma_withdraw_preserves, spec_full_deck, spec_removal_list, spec_withdraw, withdraw,
};
use crate::error::Error;
use crate::hand::{get_rank, spec_hand_parses, spec_rank, spec_seven, Hand};
use crate::tables::Tables;
use vstd::prelude::*;

verus! {

/// The score of one hand against a five-card board.
pub open spec fn spec_score(t: Tables, hand: Hand, community: Seq<Card>) -> u16 {
    spec_rank(t, spec_seven(hand, community))
}

/// Whether hand `i` attains the highest score among all hands.
#[verifier::opaque]
pub open spec fn spec_is_max(t: Tables, hands: Seq<Hand>, community: Seq<Card>, i: int) -> bool {
    &&& 0 <= i < hands.len()
    &&& forall|j: int|
        0 <= j < hands.len() ==> #[trigger] spec_score(t, hands[j], community) <= spec_score(
            t,
            hands[i],
            community,
        )
}

/// Whether exactly one hand attains the highest score.
#[verifier::opaque]
pub open spec fn spec_unique_max(t: Tables, hands: Seq<Hand>, community: Seq<Card>) -> bool {
    exists|i: int|
        #[trigger] spec_is_max(t, hands, community, i) && (forall|j: int|
            #[trigger] spec_is_max(t, hands, community, j) ==> j == i)
}

/// The indices of the hands attaining the highest score on this board, in
/// increasing order: one index means a sole winner, several mean a tie.
#[verifier::loop_isolation(false)]
pub fn run(hands: &Vec<Hand>, community: &Vec<Card>, tables: &Tables) -> (winners: Vec<usize>)
    requires
        tables.wf(),
        forall|i: int| 0 <= i < hands@.len() ==> (#[trigger] hands@[i]).wf(),
        community@.len() == 5,
        forall|i: int| 0 <= i < 5 ==> (#[trigger] community@[i]).wf(),
    ensures
        forall|k: int, l: int| 0 <= k < l < winners@.len() ==> winners@[k] < winners@[l],
        forall|k: int| 0 <= k < winners@.len() ==> (#[trigger] winners@[k] as int) < hands@.len(),
        forall|i: usize|
            #![trigger winners@.contains(i)]
            (i as int) < hands@.len() ==> (winners@.contains(i) <==> spec_is_max(
                *tables,
                hands@,
                community@,
                i as int,
            )),
        hands@.len() > 0 ==> winners@.len() > 0,
{
    let n = hands.len();
    let mut scores: Vec<u16> = Vec::new();
    let mut i: usize = 0;
    while i < n
        invariant
            i <= n,
            scores@.len() == i,
            forall|k: int|
                0 <= k < i ==> #[trigger] scores@[k] == spec_score(
                    *tables,
                    hands@[k],
                    community@,
                ),
        decreases n - i,
    {
        scores.push(get_rank(&hands[i], community, tables));
        i = i + 1;
    }
    let mut winners: Vec<usize> = Vec::new();
    if n == 0 {
        return winners;
    }
    let mut best: u16 = scores[0];
    let mut k: usize = 1;
    while k < n
        invariant
            1 <= k <= n,
            exists|j: int| 0 <= j < k && #[trigger] scores@[j] == best,
            forall|j: int| 0 <= j < k ==> #[trigger] scores@[j] <= best,
        decreases n - k,
    {
        if scores[k] > best {
            best = scores[k];
        }
        k = k + 1;
    }
    let mut m: usize = 0;
    while m < n
        invariant
            m <= n,
            forall|a: int, b: int| 0 <= a < b < winners@.len() ==> winners@[a] < winners@[b],
            forall|a: int| 0 <= a < winners@.len() ==> (#[trigger] winners@[a] as int) < m,
            forall|i2: usize|
                (i2 as int) < m ==> (winners@.contains(i2) <==> scores@[i2 as int] == best),
        decreases n - m,
    {
        let ghost before = winners@;
        if scores[m] == best {
            winners.push(m);
        }
        proof {
            assert forall|i2: usize| (i2 as int) < m + 1 implies (winners@.contains(i2)
                <==> scores@[i2 as int] == best) by {
                if winners@ == before.push(m) {
                    assert(winners@[winners@.len() - 1] == m);
                    if (i2 as int) < m {
                        assert(winners@.contains(i2) <==> before.contains(i2)) by {
                            if before.contains(i2) {
                                let a = choose|a: int|
                                    0 <= a < before.len() && before[a] == i2;
                                assert(winners@[a] == i2);
                            }
                            if winners@.contains(i2) {
                                let a = choose|a: int|
                                    0 <= a < winners@.len() && winners@[a] == i2;
                                assert(a < winners@.len() - 1);
                                assert(before[a] == i2);
                            }
                        }
                    }
                } else {
                    if (i2 as int) == m {
                        if winners@.contains(i2) {
                            let a = choose|a: int|
                                0 <= a < winners@.len() && winners@[a] == i2;
                            assert((winners@[a] as int) < m);
                        }
                    }
                }
            }
        }
        m = m + 1;
    }
    proof {
        reveal(spec_is_max);
        assert forall|i2: usize| (i2 as int) < hands@.len() implies (winners@.contains(i2)
            <==> spec_is_max(*tables, hands@, community@, i2 as int)) by {
            let j0 = choose|j: int| 0 <= j < n && #[trigger] scores@[j] == best;
            if scores@[i2 as int] == best {
                assert forall|j: int|
                    0 <= j < hands@.len() implies #[trigger] spec_score(
                    *tables,
                    hands@[j],
                    community@,
                ) <= spec_score(*tables, hands@[i2 as int], community@) by {
                    assert(scores@[j] <= best);
                }
                assert(spec_is_max(*tables, hands@, community@, i2 as int));
            }
            if spec_is_max(*tables, hands@, community@, i2 as int) {
                assert(spec_score(*tables, hands@[j0], community@) <= spec_score(
                    *tables,
                    hands@[i2 as int],
                    community@,
                ));
                assert(scores@[i2 as int] == best);
            }
        }
        let j0 = choose|j: int| 0 <= j < n && #[trigger] scores@[j] == best;
        assert(winners@.contains(j0 as usize));
    }
    winners
}

/// Whether the list of winner indices names `x`.
fn contains_idx(winners: &Vec<usize>, x: usize) -> (b: bool)
    ensures
        b == winners@.contains(x),
{
    let mut i: usize = 0;
    while i < winners.len()
        invariant
            i <= winners@.len(),
            forall|k: int| 0 <= k < i ==> winners@[k] != x,
        decreases winners@.len() - i,
    {
        if winners[i] == x {
            assert(winners@[i as int] == x);
            return true;
        }
        i = i + 1;
    }
    false
}

/// One Monte Carlo trial on a fixed five-card board: every hand's trial
/// counter rises by one; when a single hand holds the highest score it alone
/// is credited a win, and when several share it each of them is credited a
/// tie — never both in the same trial.
#[verifier::loop_isolation(false)]
#[verifier::rlimit(80)]
pub fn trial(hands: &mut Vec<Hand>, community: &Vec<Card>, tables: &Tables)
    requires
        tables.wf(),
        forall|i: int| 0 <= i < old(hands)@.len() ==> (#[trigger] old(hands)@[i]).wf(),
        community@.len() == 5,
        forall|i: int| 0 <= i < 5 ==> (#[trigger] community@[i]).wf(),
        forall|i: int|
            0 <= i < old(hands)@.len() ==> (#[trigger] old(hands)@[i]).runs < usize::MAX && old(
                hands,
            )@[i].wins + old(hands)@[i].ties <= old(hands)@[i].runs,
    ensures
        final(hands)@.len() == old(hands)@.len(),
        forall|i: int|
            0 <= i < old(hands)@.len() ==> (#[trigger] final(hands)@[i]).cards == old(
                hands,
            )@[i].cards && final(hands)@[i].runs == old(hands)@[i].runs + 1,
        spec_unique_max(*tables, old(hands)@, community@) ==> forall|i: int|
            0 <= i < old(hands)@.len() ==> (#[trigger] final(hands)@[i]).ties == old(
                hands,
            )@[i].ties && final(hands)@[i].wins == old(hands)@[i].wins + (
            if spec_is_max(*tables, old(hands)@, community@, i) {
                1int
            } else {
                0int
            }),
        !spec_unique_max(*tables, old(hands)@, community@) ==> forall|i: int|
            0 <= i < old(hands)@.len() ==> (#[trigger] final(hands)@[i]).wins == old(
                hands,
            )@[i].wins && final(hands)@[i].ties == old(hands)@[i].ties + (
            if spec_is_max(*tables, old(hands)@, community@, i) {
                1int
            } else {
                0int
            }),
{
    let winners = run(hands, community, tables);
    let unique = winners.len() == 1;
    let nh = hands.len();
    proof {
        assert(hands@.len() == nh);
        reveal(spec_unique_max);
        if winners@.len() == 1 {
            let w0 = winners@[0];
            assert(winners@.contains(w0));
            assert(spec_is_max(*tables, hands@, community@, w0 as int));
            assert forall|j: int|
                #[trigger] spec_is_max(*tables, hands@, community@, j) implies j
                == w0 as int by {
                assert(0 <= j < hands@.len()) by {
                    reveal(spec_is_max);
                }
                assert(winners@.contains(j as usize));
                let a = choose|a: int| 0 <= a < winners@.len() && winners@[a] == j as usize;
                assert(a == 0);
            }
            assert(spec_unique_max(*tables, hands@, community@));
        } else if winners@.len() == 0 {
            if spec_unique_max(*tables, hands@, community@) {
                let i0 = choose|i0: int|
                    #[trigger] spec_is_max(*tables, hands@, community@, i0) && (forall|j: int|
                        #[trigger] spec_is_max(*tables, hands@, community@, j) ==> j == i0);
                assert(0 <= i0 < hands@.len()) by {
                    reveal(spec_is_max);
                }
                assert(winners@.contains(i0 as usize));
                assert(false);
            }
        } else {
            let w0 = winners@[0];
            let w1 = winners@[1];
            assert(winners@.contains(w0));
            assert(winners@.contains(w1));
            assert(w0 < w1);
            assert(spec_is_max(*tables, hands@, community@, w0 as int));
            assert(spec_is_max(*tables, hands@, community@, w1 as int));
            if spec_unique_max(*tables, hands@, community@) {
                let i0 = choose|i0: int|
                    #[trigger] spec_is_max(*tables, hands@, community@, i0) && (forall|j: int|
                        #[trigger] spec_is_max(*tables, hands@, community@, j) ==> j == i0);
                assert(w0 as int == i0);
                assert(w1 as int == i0);
                assert(false);
            }
        }
        assert(unique == spec_unique_max(*tables, hands@, community@));
    }
    let ghost uq = spec_unique_max(*tables, hands@, community@);
    let ghost hands0 = hands@;
    let mut updated: Vec<Hand> = Vec::new();
    let mut i: usize = 0;
    while i < hands.len()
        invariant
            i <= hands0.len(),
            hands@ == hands0,
            updated@.len() == i,
            forall|k: int|
                0 <= k < i ==> (#[trigger] updated@[k]).cards == hands0[k].cards
                    && updated@[k].runs == hands0[k].runs + 1 && updated@[k].wins == hands0[k].wins
                    + (if uq && winners@.contains(k as usize) {
                    1int
                } else {
                    0int
                }) && updated@[k].ties == hands0[k].ties + (
                if !uq && winners@.contains(k as usize) {
                    1int
                } else {
                    0int
                }),
        decreases hands0.len() - i,
    {
        let mut h = hands[i];
        let is_max = contains_idx(&winners, i);
        if is_max {
            if unique {
                h.win();
            } else {
                h.tie();
            }
        }
        h.ran();
        updated.push(h);
        i = i + 1;
    }
    *hands = updated;
    proof {
        assert forall|k: int| 0 <= k < hands0.len() implies winners@.contains(k as usize)
            == spec_is_max(*tables, hands0, community@, k) by {}
    }
}

/// The hole cards named by a list of four-letter hand codes, flattened.
pub open spec fn spec_parsed_hand_cards(hs: Seq<&str>) -> Seq<Card> {
    Seq::new(
        hs.len() * 2,
        |i: int| if i % 2 == 0 {
            spec_parsed_card(hs[i / 2]@.subrange(0, 2))
        } else {
            spec_parsed_card(hs[i / 2]@.subrange(2, 4))
        },
    )
}

/// The cards named by a list of two-letter board codes.
pub open spec fn spec_parsed_board(bs: Seq<&str>) -> Seq<Card> {
    Seq::new(bs.len(), |j: int| spec_parsed_card(bs[j]@))
}

/// Whether every hand code and every board code is well formed.
pub open spec fn spec_all_parse(hs: Seq<&str>, bs: Seq<&str>) -> bool {
    &&& forall|i: int| 0 <= i < hs.len() ==> spec_hand_parses(#[trigger] hs[i]@)
    &&& forall|j: int| 0 <= j < bs.len() ==> spec_code_parses(#[trigger] bs[j]@)
}

/// The deck left after withdrawing every named card from the full deck, or
/// the first card named twice.
pub open spec fn spec_setup(hs: Seq<&str>, bs: Seq<&str>) -> Result<Seq<Card>, Card> {
    spec_withdraw(spec_full_deck(), spec_parsed_hand_cards(hs) + spec_parsed_board(bs))
}

/// Whether a simulation request is valid: everything parses, the board has
/// at most five cards, no card is named twice, and enough cards remain in
/// the deck to complete the board.
pub open spec fn spec_valid(hs: Seq<&str>, bs: Seq<&str>) -> bool {
    &&& spec_all_parse(hs, bs)
    &&& bs.len() <= 5
    &&& spec_setup(hs, bs) is Ok
    &&& hs.len() <= 23
}

/// Runs the whole simulation: parses the hands and the board, withdraws the
/// dealt cards from a fresh deck, then plays `iterations` independent trials,
/// each on a randomly completed board. Yields one statistics record per hand,
/// in input order; any validation failure aborts before the first trial.
#[verifier::loop_isolation(false)]
pub fn apply(hands: Vec<&str>, board: Vec<&str>, iterations: usize, tables: &Tables) -> (r: Result<
    Vec<Hand>,
    Error,
>)
    requires
        tables.wf(),
    ensures
        r is Ok <==> spec_valid(hands@, board@),
        r is Ok ==> (r->Ok_0)@.len() == hands@.len() && (forall|i: int|
            0 <= i < hands@.len() ==> (#[trigger] (r->Ok_0)@[i]).cards@[0] == spec_parsed_card(
                hands@[i]@.subrange(0, 2),
            ) && (r->Ok_0)@[i].cards@[1] == spec_parsed_card(hands@[i]@.subrange(2, 4)) && (
            r->Ok_0)@[i].runs == iterations && (r->Ok_0)@[i].wins + (r->Ok_0)@[i].ties
                <= iterations),
        r is Err ==> ((r->Err_0 is Parse) <==> !spec_all_parse(hands@, board@)),
        r is Err ==> ((r->Err_0 is Duplicate) <==> spec_all_parse(hands@, board@)
            && board@.len() <= 5 && spec_setup(hands@, board@) is Err),
        r is Err ==> ((r->Err_0 is InsufficientDeck) <==> spec_all_parse(hands@, board@) && (
        board@.len() > 5 || (spec_setup(hands@, board@) is Ok && hands@.len() > 23))),
{
    let mut parsed: Vec<Hand> = Vec::new();
    let mut i: usize = 0;
    while i < hands.len()
        invariant
            i <= hands@.len(),
            parsed@.len() == i,
            forall|k: int| 0 <= k < i ==> spec_hand_parses(#[trigger] hands@[k]@),
            forall|k: int|
                0 <= k < i ==> (#[trigger] parsed@[k]).cards@[0] == spec_parsed_card(
                    hands@[k]@.subrange(0, 2),
                ) && parsed@[k].cards@[1] == spec_parsed_card(hands@[k]@.subrange(2, 4))
                    && parsed@[k].wf() && parsed@[k].wins == 0 && parsed@[k].ties == 0
                    && parsed@[k].runs == 0,
        decreases hands@.len() - i,
    {
        match Hand::parse(hands[i]) {
            Ok(h) => {
                parsed.push(h);
            },
            Err(e) => {
                proof {
                    assert(!spec_hand_parses(hands@[i as int]@));
                }
                return Err(e);
            },
        }
        i = i + 1;
    }
    let mut board_cards: Vec<Card> = Vec::new();
    let mut j: usize = 0;
    while j < board.len()
        invariant
            j <= board@.len(),
            board_cards@.len() == j,
            forall|k: int| 0 <= k < j ==> spec_code_parses(#[trigger] board@[k]@),
            forall|k: int|
                0 <= k < j ==> #[trigger] board_cards@[k] == spec_parsed_card(board@[k]@)
                    && board_cards@[k].wf(),
        decreases board@.len() - j,
    {
        match Card::parse(board[j]) {
            Ok(c) => {
                board_cards.push(c);
            },
            Err(e) => {
                proof {
                    assert(!spec_code_parses(board@[j as int]@));
                }
                return Err(e);
            },
        }
        j = j + 1;
    }
    if board_cards.len() > 5 {
        return Err(Error::InsufficientDeck);
    }
    let mut d = deck();
    let ghost removal = spec_removal_list(parsed@, board_cards@);
    proof {
        assert(removal =~= spec_parsed_hand_cards(hands@) + spec_parsed_board(board@));
    }
    match withdraw(&mut d, &parsed, &board_cards) {
        Ok(_) => {},
        Err(e) => {
            return Err(e);
        },
    }
    proof {
        lemma_withdraw_ok_multiset(spec_full_deck(), removal);
        lemma_full_deck_complete();
        lemma_withdraw_preserves(spec_full_deck(), removal);
    }
    if d.len() < 5 - board_cards.len() {
        proof {
            assert(d@.len() == 52 - (2 * hands@.len() + board@.len()));
            assert(hands@.len() > 23);
        }
        return Err(Error::InsufficientDeck);
    }
    proof {
        assert(d@.len() == 52 - (2 * hands@.len() + board@.len()));
        assert(hands@.len() <= 23);
        assert forall|k: int| 0 <= k < d@.len() implies (#[trigger] d@[k]).wf() by {
            assert(d@.contains(d@[k]));
            assert(spec_full_deck().contains(d@[k]));
            let a = choose|a: int|
                0 <= a < spec_full_deck().len() && spec_full_deck()[a] == d@[k];
            assert(spec_full_deck()[a].wf());
        }
    }
    let mut k: usize = 0;
    while k < iterations
        invariant
            k <= iterations,
            parsed@.len() == hands@.len(),
            forall|i2: int|
                0 <= i2 < parsed@.len() ==> (#[trigger] parsed@[i2]).cards@[0]
                    == spec_parsed_card(hands@[i2]@.subrange(0, 2)) && parsed@[i2].cards@[1]
                    == spec_parsed_card(hands@[i2]@.subrange(2, 4)) && parsed@[i2].wf(),
            forall|i2: int|
                0 <= i2 < parsed@.len() ==> (#[trigger] parsed@[i2]).runs == k
                    && parsed@[i2].wins + parsed@[i2].ties <= k,
        decreases iterations - k,
    {
        let comm = community(&d, &board_cards);
        proof {
            let ghost nb = board_cards@.len() as int;
            lemma_drawn_properties(d@, comm@.take(5 - nb));
            assert forall|a: int| 0 <= a < 5 implies (#[trigger] comm@[a]).wf() by {
                if a < 5 - nb {
                    assert(comm@.take(5 - nb)[a] == comm@[a]);
                    assert(d@.contains(comm@.take(5 - nb)[a]));
                    let b = choose|b: int| 0 <= b < d@.len() && d@[b] == comm@[a];
                    assert(d@[b].wf());
                } else {
                    assert(comm@.skip(5 - nb)[a - (5 - nb)] == comm@[a]);
                    assert(board_cards@[a - (5 - nb)].wf());
                }
            }
        }
        trial(&mut parsed, &comm, tables);
        k = k + 1;
    }
    Ok(parsed)
}

} // verus!
