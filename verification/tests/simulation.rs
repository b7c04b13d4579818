//! Simulation and evaluator tests, run against tables built from an
//! equivalent construction of the evaluator's lookup asset: every seven-card
//! rank combination is ranked by the standard hand ordering and keyed by its
//! additive weight.

use proba::card::Card;
use proba::deck::deck;
use proba::error::Error;
use proba::hand::{get_rank, Hand};
use proba::sim::apply;
use proba::tables::Tables;
use std::collections::HashMap;

const RANK_WEIGHTS: [u64; 13] = [
    1479181, 636345, 262349, 83661, 22854, 8698, 2031, 453, 98, 22, 5, 1, 0,
];

fn encode_class(cat: u32, vals: &[u32]) -> u32 {
    let mut x: u32 = cat << 20;
    let mut shift: u32 = 16;
    for v in vals {
        x |= v << shift;
        shift -= 4;
    }
    x
}

/// Highest top card of a five-card run in `present` (poker values 2..=14),
/// the wheel counting the ace as one.
fn straight_high(present: &[bool; 15]) -> Option<u32> {
    let mut h: usize = 14;
    while h >= 5 {
        let low_ok = if h == 5 { present[14] } else { present[h - 4] };
        if present[h] && present[h - 1] && present[h - 2] && present[h - 3] && low_ok {
            return Some(h as u32);
        }
        h -= 1;
    }
    None
}

/// The best five-card class of seven cards holding no flush, from the count
/// of each poker value 2..=14.
fn best_nonflush(counts: &[u8; 15]) -> u32 {
    let mut present = [false; 15];
    for p in 2..=14 {
        present[p] = counts[p] > 0;
    }
    for p in (2..=14).rev() {
        if counts[p] == 4 {
            let k = (2..=14).rev().find(|&q| q != p && counts[q] > 0).unwrap();
            return encode_class(7, &[p as u32, k as u32]);
        }
    }
    let trips: Vec<usize> = (2..=14).rev().filter(|&p| counts[p] == 3).collect();
    if let Some(&t) = trips.first() {
        if let Some(pq) = (2..=14).rev().find(|&q| q != t && counts[q] >= 2) {
            return encode_class(6, &[t as u32, pq as u32]);
        }
    }
    if let Some(h) = straight_high(&present) {
        return encode_class(4, &[h]);
    }
    if let Some(&t) = trips.first() {
        let ks: Vec<u32> = (2..=14)
            .rev()
            .filter(|&q| q != t && counts[q] > 0)
            .take(2)
            .map(|q| q as u32)
            .collect();
        return encode_class(3, &[t as u32, ks[0], ks[1]]);
    }
    let pairs: Vec<usize> = (2..=14).rev().filter(|&p| counts[p] == 2).collect();
    if pairs.len() >= 2 {
        let k = (2..=14)
            .rev()
            .find(|&q| q != pairs[0] && q != pairs[1] && counts[q] > 0)
            .unwrap();
        return encode_class(2, &[pairs[0] as u32, pairs[1] as u32, k as u32]);
    }
    if pairs.len() == 1 {
        let p = pairs[0];
        let ks: Vec<u32> = (2..=14)
            .rev()
            .filter(|&q| q != p && counts[q] > 0)
            .take(3)
            .map(|q| q as u32)
            .collect();
        return encode_class(1, &[p as u32, ks[0], ks[1], ks[2]]);
    }
    let hs: Vec<u32> = (2..=14)
        .rev()
        .filter(|&q| counts[q] > 0)
        .take(5)
        .map(|q| q as u32)
        .collect();
    encode_class(0, &hs)
}

/// The best five-card class of a flush suit's rank pattern (bit 0 the two,
/// bit 12 the ace): a straight flush or a plain flush.
fn flush_class(mask: u16) -> u32 {
    let mut present = [false; 15];
    for b in 0..13 {
        if mask & (1u16 << b) != 0 {
            present[b + 2] = true;
        }
    }
    if let Some(h) = straight_high(&present) {
        return encode_class(8, &[h]);
    }
    let vs: Vec<u32> = (2..=14)
        .rev()
        .filter(|&q| present[q])
        .take(5)
        .map(|q| q as u32)
        .collect();
    encode_class(5, &vs)
}

/// Every way to deal seven cards over 13 ranks, at most four of each.
fn enum_rank_counts(idx: usize, remaining: u8, counts: &mut [u8; 13], out: &mut Vec<[u8; 13]>) {
    if idx == 13 {
        if remaining == 0 {
            out.push(*counts);
        }
        return;
    }
    let top = remaining.min(4);
    for c in 0..=top {
        counts[idx] = c;
        enum_rank_counts(idx + 1, remaining - c, counts, out);
    }
    counts[idx] = 0;
}

fn build_tables() -> Tables {
    let mut flush_check = vec![-1i32; 401];
    for cs in 0..=7u32 {
        for ch in 0..=(7 - cs) {
            for cd in 0..=(7 - cs - ch) {
                let cc = 7 - cs - ch - cd;
                let s = (ch + 8 * cd + 57 * cc) as usize;
                let f: i32 = if cs >= 5 {
                    0
                } else if ch >= 5 {
                    1
                } else if cd >= 5 {
                    2
                } else if cc >= 5 {
                    3
                } else {
                    -1
                };
                flush_check[s] = f;
            }
        }
    }
    let mut kron: Vec<Vec<u16>> = Vec::new();
    for f in 0..4usize {
        let mut row = vec![0u16; 52];
        for v in 0..52usize {
            let rv = v / 4;
            let sv = v % 4;
            if sv == f {
                row[v] = 1u16 << (12 - rv);
            }
        }
        kron.push(row);
    }
    let mut multisets: Vec<[u8; 13]> = Vec::new();
    enum_rank_counts(0, 7, &mut [0u8; 13], &mut multisets);
    let mut classes: Vec<u32> = Vec::new();
    let mut nonflush: Vec<([u8; 13], u32)> = Vec::new();
    for counts in &multisets {
        let mut cp = [0u8; 15];
        for r in 0..13usize {
            cp[14 - r] = counts[r];
        }
        let cls = best_nonflush(&cp);
        classes.push(cls);
        nonflush.push((*counts, cls));
    }
    let mut flush_cls = vec![0u32; 8192];
    for mask in 0..8192u32 {
        let pc = mask.count_ones();
        if (5..=7).contains(&pc) {
            let c = flush_class(mask as u16);
            flush_cls[mask as usize] = c;
            classes.push(c);
        }
    }
    classes.sort();
    classes.dedup();
    let score_of = |c: u32| -> u16 { (classes.binary_search(&c).unwrap() + 1) as u16 };
    let mut flush_ranks = vec![0u16; 8192];
    for mask in 0..8192usize {
        if flush_cls[mask] != 0 {
            flush_ranks[mask] = score_of(flush_cls[mask]);
        }
    }
    let mut offsets = vec![0usize; 16384];
    for (i, o) in offsets.iter_mut().enumerate() {
        *o = i * 512;
    }
    let mut rank_hash = vec![0u16; 16384 * 512];
    let mut seen: HashMap<usize, u64> = HashMap::new();
    for (counts, cls) in &nonflush {
        let mut w: u64 = 0;
        for r in 0..13usize {
            w += counts[r] as u64 * RANK_WEIGHTS[r];
        }
        let key = ((31 * w) & 0x7fffff) as usize;
        if let Some(prev) = seen.insert(key, w) {
            assert_eq!(prev, w);
        }
        rank_hash[key] = score_of(*cls);
    }
    Tables::new(flush_check, kron, flush_ranks, offsets, rank_hash).unwrap()
}

fn board(codes: &[&str]) -> Vec<Card> {
    codes.iter().map(|c| Card::parse(c).unwrap()).collect()
}

fn score(t: &Tables, hand: &str, community: &[&str]) -> u16 {
    let h = Hand::parse(hand).unwrap();
    get_rank(&h, &board(community), t)
}

#[test]
fn test_odds() {
    let t = build_tables();
    let stats = apply(vec!["AhKc", "8h8d"], vec!["As", "Ac", "Ad"], 1000, &t).unwrap();
    assert_eq!(stats.len(), 2);
    for h in &stats {
        assert_eq!(h.runs, 1000);
        assert!(h.wins + h.ties <= 1000);
    }
}

#[test]
fn evaluate_deterministic_and_order_independent() {
    let t = build_tables();
    let a = score(&t, "AhKc", &["2d", "7s", "9c", "Jh", "Qd"]);
    let b = score(&t, "AhKc", &["2d", "7s", "9c", "Jh", "Qd"]);
    assert_eq!(a, b);
    let c = score(&t, "KcAh", &["Qd", "Jh", "9c", "7s", "2d"]);
    assert_eq!(a, c);
}

#[test]
fn monotonic_hand_categories() {
    let t = build_tables();
    let common = ["2h", "5d", "9c", "Js", "Kd"];
    let high = score(&t, "Ah3c", &common);
    let pair = score(&t, "Ah9d", &common);
    let two_pair = score(&t, "9d5s", &common);
    let trips = score(&t, "9d9h", &common);
    assert!(high < pair);
    assert!(pair < two_pair);
    assert!(two_pair < trips);
    let straight = score(&t, "QcTd", &common);
    assert!(trips < straight);
    let flushy = ["2h", "5h", "9h", "Js", "Kd"];
    let flush = score(&t, "AhTh", &flushy);
    let straight2 = score(&t, "QcTd", &["2h", "5h", "9h", "Js", "Kd"]);
    assert!(straight2 < flush);
    let paired_board = ["2h", "2d", "9c", "Js", "Kd"];
    let full_house = score(&t, "9d9h", &paired_board);
    let flush2 = score(&t, "AhTh", &["2h", "5h", "9h", "Jh", "Kd"]);
    assert!(flush2 > score(&t, "9d9h", &["2h", "5h", "9c", "Js", "Kd"]));
    assert!(full_house > flush);
    let quads = score(&t, "9d9h", &["9s", "9c", "2h", "5d", "Kd"]);
    assert!(quads > full_house);
}

#[test]
fn end_to_end_aces_beat_kings() {
    let t = build_tables();
    let stats = apply(vec!["AhAc", "KdKc"], vec![], 20000, &t).unwrap();
    let aa = &stats[0];
    assert_eq!(aa.runs, 20000);
    // AA versus KK holds more than 80% equity; allow statistical tolerance.
    assert!((aa.wins + aa.ties) * 100 >= 77 * 20000);
}

#[test]
fn end_to_end_completed_board_is_deterministic() {
    let t = build_tables();
    let stats = apply(
        vec!["AhKc", "2s2d"],
        vec!["Ad", "Kd", "Qc", "Js", "Tc"],
        5,
        &t,
    )
    .unwrap();
    // The board itself is an ace-high straight that both hands share: every
    // trial ends in the same tie.
    assert_eq!(stats[0].ties, 5);
    assert_eq!(stats[1].ties, 5);
    assert_eq!(stats[0].wins, 0);
    assert_eq!(stats[1].wins, 0);
    assert_eq!(stats[0].runs, 5);
    assert_eq!(stats[1].runs, 5);
}

#[test]
fn accounting_per_trial() {
    let t = build_tables();
    let stats = apply(vec!["AhKh", "7c2d"], vec![], 300, &t).unwrap();
    // With two hands, a trial is either one win or a tie credited to both.
    assert_eq!(stats[0].ties, stats[1].ties);
    assert_eq!(stats[0].wins + stats[1].wins + stats[0].ties, 300);
    assert_eq!(stats[0].runs, 300);
    assert_eq!(stats[1].runs, 300);
}

#[test]
fn duplicate_card_fails() {
    let t = build_tables();
    let r = apply(vec!["AhAc"], vec!["Ah"], 10, &t);
    assert!(matches!(r, Err(Error::Duplicate(_))));
    let r2 = apply(vec!["AhAc", "AcKd"], vec![], 10, &t);
    assert!(matches!(r2, Err(Error::Duplicate(_))));
}

#[test]
fn parse_failure_aborts_run() {
    let t = build_tables();
    assert!(matches!(
        apply(vec!["ZzAh"], vec![], 10, &t),
        Err(Error::Parse(_))
    ));
    assert!(matches!(
        apply(vec!["AhKc"], vec!["Zz"], 10, &t),
        Err(Error::Parse(_))
    ));
}

#[test]
fn insufficient_deck_fails() {
    let t = build_tables();
    let full = deck();
    let mut hands: Vec<String> = Vec::new();
    for i in 0..24usize {
        let a = full[2 * i].code();
        let b = full[2 * i + 1].code();
        hands.push(format!("{}{}", a, b));
    }
    let refs: Vec<&str> = hands.iter().map(|s| s.as_str()).collect();
    let r = apply(refs, vec![], 10, &t);
    assert!(matches!(r, Err(Error::InsufficientDeck)));
}

#[test]
fn tables_shape_is_checked() {
    let r = Tables::new(
        vec![-1i32; 400],
        Vec::new(),
        vec![0u16; 8192],
        vec![0usize; 16384],
        vec![0u16; 512],
    );
    assert!(r.is_none());
}
