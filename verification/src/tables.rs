//! The evaluator's five constant lookup tables: a pre-built, read-only data
//! asset. Their construction is outside this library; here they are plain
//! data whose shape — lengths and index bounds — is what the evaluator's
//! safety rests on, checked once when the tables are loaded.

use vstd::prelude::*;

verus! {

/// The five lookup tables the seven-card evaluator queries.
///
/// `flush_check` is indexed by the suit signal (bit 23 and above) of a
/// seven-card weight sum and yields the flush suit's index, or a negative
/// value when no suit occurs five or more times. `suit_kronecker[f][v]` maps
/// the card with dense index `v` to a one-bit rank mask when its suit is the
/// flush suit `f`, else to zero. `flush_ranks` maps the resulting 13-bit
/// rank-presence pattern to a strength score. `offsets` and `rank_hash` form
/// the two-level perfect hash that scores every non-flush combination.
pub struct Tables {
    pub flush_check: Vec<i32>,
    pub suit_kronecker: Vec<Vec<u16>>,
    pub flush_ranks: Vec<u16>,
    pub offsets: Vec<usize>,
    pub rank_hash: Vec<u16>,
}

impl Tables {
    /// The shape every lookup of the evaluator relies on: a suit signal of
    /// up to seven cards stays below 401, a flush index below 4, a rank
    /// mask below 1 << 13, a hash row below 1 << 14, and every row fits in
    /// `rank_hash`.
    pub open spec fn wf(self) -> bool {
        &&& self.flush_check@.len() == 401
        &&& forall|i: int| 0 <= i < 401 ==> #[trigger] self.flush_check@[i] < 4
        &&& self.suit_kronecker@.len() == 4
        &&& forall|f: int| 0 <= f < 4 ==> (#[trigger] self.suit_kronecker@[f])@.len() == 52
        &&& forall|f: int, v: int|
            0 <= f < 4 && 0 <= v < 52 ==> #[trigger] self.suit_kronecker@[f]@[v] < 8192
        &&& self.flush_ranks@.len() == 8192
        &&& self.offsets@.len() == 16384
        &&& forall|i: int|
            0 <= i < 16384 ==> #[trigger] self.offsets@[i] + 512 <= self.rank_hash@.len()
    }

    /// Wraps the five tables after checking every bound `wf` names, so that
    /// the evaluator never indexes out of range. Yields nothing when some
    /// bound fails.
    pub fn new(
        flush_check: Vec<i32>,
        suit_kronecker: Vec<Vec<u16>>,
        flush_ranks: Vec<u16>,
        offsets: Vec<usize>,
        rank_hash: Vec<u16>,
    ) -> (r: Option<Tables>)
        ensures
            r is Some <==> (Tables {
                flush_check,
                suit_kronecker,
                flush_ranks,
                offsets,
                rank_hash,
            }).wf(),
            r is Some ==> r->0 == (Tables {
                flush_check,
                suit_kronecker,
                flush_ranks,
                offsets,
                rank_hash,
            }),
    {
        let t = Tables { flush_check, suit_kronecker, flush_ranks, offsets, rank_hash };
        if t.check() {
            Some(t)
        } else {
            None
        }
    }

    /// Whether every bound `wf` names actually holds of these tables.
    pub fn check(&self) -> (b: bool)
        ensures
            b == self.wf(),
    {
        if self.flush_check.len() != 401 {
            return false;
        }
        if self.suit_kronecker.len() != 4 {
            return false;
        }
        if self.flush_ranks.len() != 8192 {
            return false;
        }
        if self.offsets.len() != 16384 {
            return false;
        }
        let mut i: usize = 0;
        while i < 401
            invariant
                i <= 401,
                self.flush_check@.len() == 401,
                forall|k: int| 0 <= k < i ==> #[trigger] self.flush_check@[k] < 4,
            decreases 401 - i,
        {
            if self.flush_check[i] >= 4 {
                return false;
            }
            i = i + 1;
        }
        let mut f: usize = 0;
        while f < 4
            invariant
                f <= 4,
                self.suit_kronecker@.len() == 4,
                forall|k: int| 0 <= k < f ==> (#[trigger] self.suit_kronecker@[k])@.len() == 52,
                forall|k: int, v: int|
                    0 <= k < f && 0 <= v < 52 ==> #[trigger] self.suit_kronecker@[k]@[v] < 8192,
            decreases 4 - f,
        {
            let row = &self.suit_kronecker[f];
            if row.len() != 52 {
                return false;
            }
            let mut v: usize = 0;
            while v < 52
                invariant
                    v <= 52,
                    row == &self.suit_kronecker@[f as int],
                    self.suit_kronecker@.len() == 4,
                    f < 4,
                    row@.len() == 52,
                    forall|w: int| 0 <= w < v ==> #[trigger] row@[w] < 8192,
                decreases 52 - v,
            {
                if row[v] >= 8192 {
                    return false;
                }
                v = v + 1;
            }
            f = f + 1;
        }
        let mut j: usize = 0;
        while j < 16384
            invariant
                j <= 16384,
                self.offsets@.len() == 16384,
                forall|k: int|
                    0 <= k < j ==> #[trigger] self.offsets@[k] + 512 <= self.rank_hash@.len(),
            decreases 16384 - j,
        {
            let off = self.offsets[j];
            if off > self.rank_hash.len() || self.rank_hash.len() - off < 512 {
                return false;
            }
            j = j + 1;
        }
        true
    }
}

} // verus!
