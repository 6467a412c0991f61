//! Dense table of aggregated geometric liquidities, one entry per unordered
//! token pair.
//!
//! The table is a square matrix of which only the cells with row index at
//! most column index are ever addressed: both orders of a pair read and write
//! the same cell, which makes the stored graph undirected by construction.

use vstd::prelude::*;

verus! {

/// The cell of `m` that holds the liquidity of the unordered pair `(a, b)`.
pub open spec fn pair_at(m: Seq<Seq<u64>>, a: int, b: int) -> u64 {
    if a < b {
        m[a][b]
    } else {
        m[b][a]
    }
}

/// `m` with the cell of the unordered pair `(a, b)` replaced by `v`.
pub open spec fn pair_update(m: Seq<Seq<u64>>, a: int, b: int, v: u64) -> Seq<Seq<u64>> {
    if a < b {
        m.update(a, m[a].update(b, v))
    } else {
        m.update(b, m[b].update(a, v))
    }
}

/// `m` is an `n` by `n` matrix.
pub open spec fn is_square(m: Seq<Seq<u64>>, n: int) -> bool {
    m.len() == n && (forall|i: int| 0 <= i < n ==> #[trigger] m[i].len() == n)
}

/// An `n` by `n` matrix of zeros.
pub open spec fn zero_matrix(n: int) -> Seq<Seq<u64>> {
    Seq::new(n as nat, |i: int| Seq::new(n as nat, |j: int| 0u64))
}

/// Writing a pair leaves the matrix square and touches no other pair.
pub proof fn lemma_pair_update(m: Seq<Seq<u64>>, n: int, a: int, b: int, v: u64)
    requires
        is_square(m, n),
        0 <= a < n,
        0 <= b < n,
    ensures
        is_square(pair_update(m, a, b, v), n),
        pair_at(pair_update(m, a, b, v), a, b) == v,
        forall|x: int, y: int|
            0 <= x < n && 0 <= y < n && !(x == a && y == b) && !(x == b && y == a)
                ==> #[trigger] pair_at(pair_update(m, a, b, v), x, y) == pair_at(m, x, y),
{
}

/// Aggregated geometric liquidity for every unordered pair of token indices.
#[derive(Debug)]
pub struct PairwiseLiquidities {
    inner: Vec<Vec<u64>>,
}

impl View for PairwiseLiquidities {
    type V = Seq<Seq<u64>>;

    closed spec fn view(&self) -> Seq<Seq<u64>> {
        Seq::new(self.inner@.len(), |i: int| self.inner@[i]@)
    }
}

impl PairwiseLiquidities {
    /// A table for `num_tokens` tokens with every liquidity zero.
    pub fn with_size(num_tokens: usize) -> (s: Self)
        ensures
            s@ == zero_matrix(num_tokens as int),
            is_square(s@, num_tokens as int),
    {
        let mut inner: Vec<Vec<u64>> = Vec::new();
        let mut i: usize = 0;
        while i < num_tokens
            invariant
                i <= num_tokens,
                inner@.len() == i,
                forall|k: int| 0 <= k < i ==> #[trigger] inner@[k]@ == Seq::new(
                    num_tokens as nat,
                    |j: int| 0u64,
                ),
            decreases num_tokens - i,
        {
            let mut row: Vec<u64> = Vec::new();
            let mut j: usize = 0;
            while j < num_tokens
                invariant
                    j <= num_tokens,
                    row@.len() == j,
                    forall|k: int| 0 <= k < j ==> row@[k] == 0u64,
                decreases num_tokens - j,
            {
                row.push(0u64);
                j += 1;
            }
            proof {
                assert(row@ =~= Seq::new(num_tokens as nat, |j: int| 0u64));
            }
            inner.push(row);
            i += 1;
        }
        let s = Self { inner };
        proof {
            assert(s@ =~~= zero_matrix(num_tokens as int));
        }
        s
    }

    /// The liquidity between `token_a` and `token_b`, in either order.
    pub fn get(&self, token_a: usize, token_b: usize) -> (r: u64)
        requires
            (token_a as int) < self@.len(),
            (token_b as int) < self@.len(),
            is_square(self@, self@.len() as int),
        ensures
            r == pair_at(self@, token_a as int, token_b as int),
    {
        let (a, b) = self.index(token_a, token_b);
        proof {
            assert(self@[a as int] == self.inner@[a as int]@);
            assert(self@[a as int].len() == self@.len());
        }
        self.inner[a][b]
    }

    /// A mutable handle on the cell of the pair `(token_a, token_b)`; the two
    /// orders of the pair share one cell.
    pub fn get_mut(&mut self, token_a: usize, token_b: usize) -> (r: &mut u64)
        requires
            (token_a as int) < old(self)@.len(),
            (token_b as int) < old(self)@.len(),
            is_square(old(self)@, old(self)@.len() as int),
        ensures
            *r == pair_at(old(self)@, token_a as int, token_b as int),
            final(self)@ == pair_update(old(self)@, token_a as int, token_b as int, *final(r)),
    {
        let (a, b) = self.index(token_a, token_b);
        proof {
            assert(self@[a as int] == self.inner@[a as int]@);
            assert(self@[a as int].len() == self@.len());
        }
        let row: &mut Vec<u64> = &mut self.inner[a];
        &mut row[b]
    }

    /// Canonical cell of an unordered pair: smaller index first.
    fn index(&self, a: usize, b: usize) -> (r: (usize, usize))
        ensures
            r == if a < b { (a, b) } else { (b, a) },
    {
        if a < b {
            (a, b)
        } else {
            (b, a)
        }
    }
}

} // verus!
