//! The equilibrium router over the aggregated token graph.
//!
//! Construction folds the pool list into per-token total reserves and
//! pairwise geometric liquidities; a trade increments the input token's
//! reserve, drives the prices to a no-arbitrage equilibrium by Gauss-Seidel
//! sweeps, and extracts the change of the output token's reserve.

pub mod liquidities;
pub mod model;

use crate::fixed::{
    fp_add, fp_mul_div, isqrt, mul_div, mul_wide, rel_change_is_small, sat_add, MAX_SWEEPS, SCALE,
};
use crate::router::liquidities::{is_square, lemma_pair_update, pair_at, PairwiseLiquidities};
use crate::router::model::{
    denom_prefix, exact_equilibrium, extract_prefix, extract_sum, first_index,
    lemma_first_index_of, lemma_first_index_works, lemma_tokens_present,
    lemma_zero_trade_idempotent, liq_of, liq_prefix, normalized, reserves_of, reserves_prefix,
    run_prices, run_sweeps, solved_prices, sweep, sweep_prefix, token_names_of,
    token_names_prefix, updated_q,
};
use crate::uni_v2_pool::{PoolModel, UniV2Pool};
use vstd::prelude::*;

verus! {

/// The views of a sequence of token names.
pub open spec fn names_seq(v: Seq<String>) -> Seq<Seq<char>> {
    v.map_values(|s: String| s@)
}

/// The models of a sequence of pools.
pub open spec fn pool_models(ps: Seq<UniV2Pool>) -> Seq<PoolModel> {
    ps.map_values(|p: UniV2Pool| p@)
}

/// Why a trade was rejected before any state was touched.
#[derive(Debug, Clone, Copy, PartialEq, Eq, Structural)]
pub enum SolveError {
    /// A token name that the graph does not know.
    UnknownToken,
    /// Input and output token are the same.
    SameToken,
}

/// Router over the aggregated token-liquidity graph.
///
/// Prices persist across trades: the equilibrium of one solve seeds the next.
#[derive(Debug)]
pub struct Router {
    /// Number of distinct tokens in the graph.
    n_tokens: usize,
    /// Token names; a token's index is its position, in first-seen order.
    token_index: Vec<String>,
    /// Total amount of each token across all pools.
    reserve_by_token: Vec<u64>,
    /// Fixed-point price per token, used for equilibrium computation.
    q_by_token: Vec<u64>,
    /// Geometric liquidity between token pairs.
    liquidity_by_pair: PairwiseLiquidities,
    /// Number of Gauss-Seidel sweeps the most recent solve performed.
    last_sweeps: usize,
}

impl Router {
    /// The token names, by index.
    pub closed spec fn names(self) -> Seq<Seq<char>> {
        names_seq(self.token_index@)
    }

    /// The total reserve of each token, by index.
    pub closed spec fn reserves(self) -> Seq<u64> {
        self.reserve_by_token@
    }

    /// The equilibrium price of each token, by index.
    pub closed spec fn prices(self) -> Seq<u64> {
        self.q_by_token@
    }

    /// The aggregated liquidity matrix.
    pub closed spec fn liq(self) -> Seq<Seq<u64>> {
        self.liquidity_by_pair@
    }

    /// Number of tokens.
    pub closed spec fn n(self) -> int {
        self.n_tokens as int
    }

    /// Sweeps performed by the most recent solve.
    pub closed spec fn sweep_count(self) -> nat {
        self.last_sweeps as nat
    }

    /// The sizes of the components agree.
    pub open spec fn wf(self) -> bool {
        &&& self.n() == self.names().len()
        &&& self.reserves().len() == self.names().len()
        &&& self.prices().len() == self.names().len()
        &&& is_square(self.liq(), self.names().len() as int)
    }

    /// Builds the aggregated graph from a pool list: every token of any pool
    /// gets an index in first-seen order; total reserves and pairwise
    /// liquidities are the saturating folds of the pool records; every price
    /// starts at 1.0.
    pub fn new(pools: Vec<UniV2Pool>) -> (r: Router)
        requires
            forall|k: int| 0 <= k < pools@.len() ==> (#[trigger] pools@[k]).valid(),
        ensures
            r.wf(),
            r.names() == token_names_of(pool_models(pools@)),
            r.reserves() == reserves_of(pool_models(pools@), r.names()),
            r.liq() == liq_of(pool_models(pools@), r.names()),
            r.prices() == Seq::new(r.names().len(), |i: int| SCALE),
            r.sweep_count() == 0,
    {
        let ghost ps = pool_models(pools@);
        let mut token_index: Vec<String> = Vec::new();
        let mut i: usize = 0;
        while i < pools.len()
            invariant
                i <= pools@.len(),
                ps == pool_models(pools@),
                forall|k: int| 0 <= k < pools@.len() ==> (#[trigger] pools@[k]).valid(),
                names_seq(token_index@) == token_names_prefix(ps, i as int),
            decreases pools@.len() - i,
        {
            let p = &pools[i];
            let ghost before0 = names_seq(token_index@);
            match find_token(&token_index, &p.token0) {
                Some(_) => {},
                None => {
                    token_index.push(p.token0.clone());
                    proof {
                        assert(names_seq(token_index@) =~= before0.push(p.token0@));
                    }
                },
            }
            let ghost before1 = names_seq(token_index@);
            match find_token(&token_index, &p.token1) {
                Some(_) => {},
                None => {
                    token_index.push(p.token1.clone());
                    proof {
                        assert(names_seq(token_index@) =~= before1.push(p.token1@));
                    }
                },
            }
            i += 1;
        }
        let ghost nm = names_seq(token_index@);
        let n_tokens = token_index.len();

        let mut reserve_by_token: Vec<u64> = Vec::new();
        while reserve_by_token.len() < n_tokens
            invariant
                reserve_by_token@.len() <= n_tokens,
                forall|k: int| 0 <= k < reserve_by_token@.len() ==> reserve_by_token@[k] == 0u64,
            decreases n_tokens - reserve_by_token@.len(),
        {
            reserve_by_token.push(0u64);
        }
        proof {
            assert(reserve_by_token@ =~= reserves_prefix(ps, nm, 0));
        }

        let mut q_by_token: Vec<u64> = Vec::new();
        while q_by_token.len() < n_tokens
            invariant
                q_by_token@.len() <= n_tokens,
                forall|k: int| 0 <= k < q_by_token@.len() ==> q_by_token@[k] == SCALE,
            decreases n_tokens - q_by_token@.len(),
        {
            q_by_token.push(SCALE);
        }
        proof {
            assert(q_by_token@ =~= Seq::new(nm.len(), |i: int| SCALE));
        }

        let mut liquidity_by_pair = PairwiseLiquidities::with_size(n_tokens);
        proof {
            assert(liquidity_by_pair@ == liq_prefix(ps, nm, 0));
        }

        let mut k: usize = 0;
        while k < pools.len()
            invariant
                k <= pools@.len(),
                ps == pool_models(pools@),
                nm == names_seq(token_index@),
                nm == token_names_prefix(ps, pools@.len() as int),
                nm.len() == n_tokens,
                reserve_by_token@ == reserves_prefix(ps, nm, k as int),
                reserve_by_token@.len() == n_tokens,
                liquidity_by_pair@ == liq_prefix(ps, nm, k as int),
                is_square(liquidity_by_pair@, n_tokens as int),
            decreases pools@.len() - k,
        {
            let p = &pools[k];
            proof {
                lemma_tokens_present(ps, pools@.len() as int, k as int);
            }
            let i0 = index_of_token(&token_index, &p.token0);
            let i1 = index_of_token(&token_index, &p.token1);
            let cur0 = reserve_by_token[i0];
            reserve_by_token.set(i0, sat_add(cur0, p.reserve0));
            let cur1 = reserve_by_token[i1];
            reserve_by_token.set(i1, sat_add(cur1, p.reserve1));
            let liquidity = isqrt(mul_wide(p.reserve0, p.reserve1));
            proof {
                crate::fixed::lemma_sqrt_floor_bounds(p.reserve0 as int * p.reserve1 as int);
            }
            let ghost m_before = liquidity_by_pair@;
            let cell = liquidity_by_pair.get_mut(i0, i1);
            let cur_liq = *cell;
            *cell = sat_add(cur_liq, liquidity);
            proof {
                lemma_pair_update(
                    m_before,
                    n_tokens as int,
                    i0 as int,
                    i1 as int,
                    sat_add_value(cur_liq, liquidity),
                );
                assert(liquidity_by_pair@ == liq_prefix(ps, nm, k as int + 1));
                assert(reserve_by_token@ == reserves_prefix(ps, nm, k as int + 1));
            }
            k += 1;
        }

        let r = Router {
            n_tokens,
            token_index,
            reserve_by_token,
            q_by_token,
            liquidity_by_pair,
            last_sweeps: 0,
        };
        r
    }

    /// Computes the maximum amount of `output_token` obtainable by selling
    /// `input_amount` of `input_token`, and updates the graph in place: the
    /// input token's reserve grows by the amount, the prices move to the new
    /// equilibrium, and the output token's reserve is replaced by its
    /// post-equilibrium value.  No other token's reserve changes.
    ///
    /// An unknown token name or a trade of a token against itself is rejected
    /// before any state is touched.  A negative result means the trade was
    /// degenerate; it is reported, not clamped.
    pub fn solve(&mut self, input_token: &String, output_token: &String, input_amount: u64) -> (r:
        Result<i128, SolveError>)
        requires
            old(self).wf(),
        ensures
            final(self).wf(),
            final(self).names() == old(self).names(),
            final(self).liq() == old(self).liq(),
            final(self).n() == old(self).n(),
            match r {
                Ok(amount) => {
                    let i = first_index(old(self).names(), input_token@);
                    let o = first_index(old(self).names(), output_token@);
                    let t1 = old(self).reserves().update(
                        i,
                        fp_add(old(self).reserves()[i] as int, input_amount as int) as u64,
                    );
                    let qf = solved_prices(old(self).liq(), t1, old(self).prices(), o);
                    &&& old(self).names().contains(input_token@)
                    &&& old(self).names().contains(output_token@)
                    &&& i != o
                    &&& final(self).prices() == qf
                    &&& final(self).reserves() == t1.update(
                        o,
                        extract_sum(old(self).liq(), qf, o) as u64,
                    )
                    &&& amount as int == t1[o] as int - extract_sum(old(self).liq(), qf, o)
                    &&& final(self).sweep_count() == run_sweeps(
                        old(self).liq(),
                        t1,
                        old(self).prices(),
                        o,
                        MAX_SWEEPS as nat,
                    )
                    &&& final(self).sweep_count() <= MAX_SWEEPS
                },
                Err(SolveError::UnknownToken) => {
                    &&& !(old(self).names().contains(input_token@) && old(self).names().contains(
                        output_token@,
                    ))
                    &&& *final(self) == *old(self)
                },
                Err(SolveError::SameToken) => {
                    &&& old(self).names().contains(input_token@)
                    &&& old(self).names().contains(output_token@)
                    &&& first_index(old(self).names(), input_token@) == first_index(
                        old(self).names(),
                        output_token@,
                    )
                    &&& *final(self) == *old(self)
                },
            },
            forall|v: int|
                0 <= v < old(self).names().len() && v != first_index(
                    old(self).names(),
                    input_token@,
                ) && v != first_index(old(self).names(), output_token@)
                    ==> final(self).reserves()[v] == old(self).reserves()[v],
    {
        let ii = find_token(&self.token_index, input_token);
        let oi = find_token(&self.token_index, output_token);
        match (ii, oi) {
            (Some(i), Some(o)) => {
                if i == o {
                    Err(SolveError::SameToken)
                } else {
                    proof {
                        lemma_first_index_works(old(self).names(), input_token@);
                        lemma_first_index_works(old(self).names(), output_token@);
                    }
                    let cur = self.reserve_by_token[i];
                    self.reserve_by_token.set(i, sat_add(cur, input_amount));
                    let amount = self.no_arbitrage_equilibrium(o);
                    Ok(amount)
                }
            },
            _ => Err(SolveError::UnknownToken),
        }
    }

    /// Fixed-point no-arbitrage solver (Gauss-Seidel), computing the amount
    /// of `output_token` that can be extracted in the process.
    ///
    /// The system enforces the conservation of total token balances,
    /// `sum over v of K(u, v) * (q_u / q_v) = T_u` for every token `u` other
    /// than the output token.  Each sweep updates, in ascending index order,
    /// `q_u <- T_u / (sum over v of K(u, v) / q_v)` with the latest available
    /// prices, and iteration stops after the first sweep whose largest
    /// relative price change is within tolerance, or after `MAX_SWEEPS`
    /// sweeps.  Prices are then renormalized against the reference token, and
    /// the output token's reserve is replaced by its post-equilibrium value
    /// `sum over v of K(f, v) * (q_f / q_v)`; the extracted amount is the
    /// difference this replacement makes.
    fn no_arbitrage_equilibrium(&mut self, output_token: usize) -> (extracted: i128)
        requires
            old(self).wf(),
            (output_token as int) < old(self).names().len(),
        ensures
            final(self).wf(),
            final(self).names() == old(self).names(),
            final(self).liq() == old(self).liq(),
            final(self).n() == old(self).n(),
            final(self).prices() == solved_prices(
                old(self).liq(),
                old(self).reserves(),
                old(self).prices(),
                output_token as int,
            ),
            final(self).reserves() == old(self).reserves().update(
                output_token as int,
                extract_sum(old(self).liq(), final(self).prices(), output_token as int) as u64,
            ),
            extracted as int == old(self).reserves()[output_token as int] as int - extract_sum(
                old(self).liq(),
                final(self).prices(),
                output_token as int,
            ),
            final(self).sweep_count() == run_sweeps(
                old(self).liq(),
                old(self).reserves(),
                old(self).prices(),
                output_token as int,
                MAX_SWEEPS as nat,
            ),
            final(self).sweep_count() <= MAX_SWEEPS,
    {
        let ghost m = self.liq();
        let ghost t = self.reserves();
        let ghost q0 = self.prices();
        let n = self.n_tokens;
        let f = output_token;

        let mut iter: usize = 0;
        let mut done = false;
        while iter < MAX_SWEEPS && !done
            invariant
                self.wf(),
                n == self.n(),
                (f as int) < n as int,
                self.names() == old(self).names(),
                self.liq() == m,
                self.reserves() == t,
                self.last_sweeps == old(self).last_sweeps,
                iter <= MAX_SWEEPS,
                !done ==> run_prices(m, t, q0, f as int, MAX_SWEEPS as nat) == run_prices(
                    m,
                    t,
                    self.prices(),
                    f as int,
                    (MAX_SWEEPS - iter) as nat,
                ),
                !done ==> run_sweeps(m, t, q0, f as int, MAX_SWEEPS as nat) == iter + run_sweeps(
                    m,
                    t,
                    self.prices(),
                    f as int,
                    (MAX_SWEEPS - iter) as nat,
                ),
                done ==> run_prices(m, t, q0, f as int, MAX_SWEEPS as nat) == self.prices(),
                done ==> run_sweeps(m, t, q0, f as int, MAX_SWEEPS as nat) == iter,
            decreases MAX_SWEEPS - iter,
        {
            let ghost q_entry = self.prices();
            let ghost fuel_entry = (MAX_SWEEPS - iter) as nat;
            let mut all_small = true;
            let mut u: usize = 0;
            while u < n
                invariant
                    self.wf(),
                    n == self.n(),
                    (f as int) < n as int,
                    u <= n,
                    self.names() == old(self).names(),
                    self.liq() == m,
                    self.reserves() == t,
                    self.last_sweeps == old(self).last_sweeps,
                    self.prices() == sweep_prefix(m, t, q_entry, f as int, u as int).0,
                    all_small == sweep_prefix(m, t, q_entry, f as int, u as int).1,
                decreases n - u,
            {
                if u != f {
                    let old_q = self.q_by_token[u];
                    let ghost q_cur = self.prices();
                    let mut denom: u64 = 0;
                    let mut j: usize = 0;
                    while j < n
                        invariant
                            self.wf(),
                            n == self.n(),
                            j <= n,
                            (u as int) < n as int,
                            self.liq() == m,
                            self.prices() == q_cur,
                            denom as int == denom_prefix(m, q_cur, u as int, j as int),
                        decreases n - j,
                    {
                        let k_uv = self.liquidity_by_pair.get(u, j);
                        let term = mul_div(k_uv, SCALE, self.q_by_token[j]);
                        denom = sat_add(denom, term);
                        j += 1;
                    }
                    let new_q = mul_div(self.reserve_by_token[u], SCALE, denom);
                    let small = rel_change_is_small(old_q, new_q);
                    all_small = all_small && small;
                    self.q_by_token.set(u, new_q);
                    proof {
                        assert(new_q as int == updated_q(m, t, q_cur, u as int));
                        assert(self.prices() == sweep_prefix(m, t, q_entry, f as int, u as int + 1).0);
                        assert(all_small == sweep_prefix(m, t, q_entry, f as int, u as int + 1).1);
                    }
                }
                u += 1;
            }
            iter += 1;
            if all_small {
                done = true;
            }
            proof {
                let swept = sweep(m, t, q_entry, f as int);
                assert(self.prices() == swept.0);
                assert(all_small == swept.1);
                assert(run_prices(m, t, q_entry, f as int, fuel_entry) == (if swept.1 {
                    swept.0
                } else {
                    run_prices(m, t, swept.0, f as int, (fuel_entry - 1) as nat)
                }));
                assert(run_sweeps(m, t, q_entry, f as int, fuel_entry) == (if swept.1 {
                    1nat
                } else {
                    1nat + run_sweeps(m, t, swept.0, f as int, (fuel_entry - 1) as nat)
                }));
            }
        }
        self.last_sweeps = iter;
        proof {
            if !done {
                assert(run_prices(m, t, self.prices(), f as int, (MAX_SWEEPS - iter) as nat)
                    == self.prices());
                assert(run_sweeps(m, t, self.prices(), f as int, (MAX_SWEEPS - iter) as nat)
                    == 0);
            }
            assert(run_prices(m, t, q0, f as int, MAX_SWEEPS as nat) == self.prices());
        }
        self.normalize_prices();
        let ghost qf = self.prices();
        proof {
            assert(qf == solved_prices(m, t, q0, f as int));
        }

        let mut output_reserve: u64 = 0;
        let mut j: usize = 0;
        while j < n
            invariant
                self.wf(),
                n == self.n(),
                j <= n,
                (f as int) < n as int,
                self.names() == old(self).names(),
                self.liq() == m,
                self.reserves() == t,
                self.prices() == qf,
                self.last_sweeps as int == iter as int,
                output_reserve as int == extract_prefix(m, qf, f as int, j as int),
            decreases n - j,
        {
            let k_fv = self.liquidity_by_pair.get(f, j);
            let term = mul_div(k_fv, self.q_by_token[f], self.q_by_token[j]);
            output_reserve = sat_add(output_reserve, term);
            j += 1;
        }
        let pre_trade = self.reserve_by_token[f];
        let extracted: i128 = pre_trade as i128 - output_reserve as i128;
        self.reserve_by_token.set(f, output_reserve);
        extracted
    }

    /// Renormalizes all prices so that the reference token, index 0, has
    /// price exactly 1.0.
    fn normalize_prices(&mut self)
        requires
            old(self).wf(),
            old(self).names().len() >= 1,
        ensures
            final(self).wf(),
            final(self).names() == old(self).names(),
            final(self).liq() == old(self).liq(),
            final(self).reserves() == old(self).reserves(),
            final(self).n() == old(self).n(),
            final(self).sweep_count() == old(self).sweep_count(),
            final(self).prices() == normalized(old(self).prices()),
    {
        let ref_q = self.q_by_token[0];
        let mut i: usize = 0;
        while i < self.n_tokens
            invariant
                self.wf(),
                self.n() == old(self).n(),
                i <= self.n(),
                self.names() == old(self).names(),
                self.liq() == old(self).liq(),
                self.reserves() == old(self).reserves(),
                self.last_sweeps == old(self).last_sweeps,
                ref_q == old(self).prices()[0],
                self.prices().len() == old(self).prices().len(),
                forall|k: int|
                    0 <= k < i ==> self.prices()[k] as int == fp_mul_div(
                        old(self).prices()[k] as int,
                        SCALE as int,
                        old(self).prices()[0] as int,
                    ),
                forall|k: int| i <= k < self.prices().len() ==> self.prices()[k] == old(
                    self,
                ).prices()[k],
            decreases self.n() - i,
        {
            let q = self.q_by_token[i];
            let nq = mul_div(q, SCALE, ref_q);
            self.q_by_token.set(i, nq);
            i += 1;
        }
        proof {
            assert(self.prices() =~= normalized(old(self).prices()));
        }
    }

    /// Number of distinct tokens in the graph.
    pub fn token_count(&self) -> (n: usize)
        requires
            self.wf(),
        ensures
            n as int == self.names().len(),
    {
        self.n_tokens
    }

    /// The index of a token name, if the graph knows it.
    pub fn index_of(&self, token: &String) -> (r: Option<usize>)
        ensures
            match r {
                Some(i) => self.names().contains(token@) && i as int == first_index(
                    self.names(),
                    token@,
                ),
                None => !self.names().contains(token@),
            },
    {
        find_token(&self.token_index, token)
    }

    /// The total reserve of a token, if the graph knows it.
    pub fn total_reserve(&self, token: &String) -> (r: Option<u64>)
        requires
            self.wf(),
        ensures
            match r {
                Some(x) => self.names().contains(token@) && x == self.reserves()[first_index(
                    self.names(),
                    token@,
                )],
                None => !self.names().contains(token@),
            },
    {
        match find_token(&self.token_index, token) {
            Some(i) => {
                proof {
                    lemma_first_index_works(self.names(), token@);
                }
                Some(self.reserve_by_token[i])
            },
            None => None,
        }
    }

    /// The current equilibrium price of a token, if the graph knows it.
    pub fn price_of(&self, token: &String) -> (r: Option<u64>)
        requires
            self.wf(),
        ensures
            match r {
                Some(x) => self.names().contains(token@) && x == self.prices()[first_index(
                    self.names(),
                    token@,
                )],
                None => !self.names().contains(token@),
            },
    {
        match find_token(&self.token_index, token) {
            Some(i) => {
                proof {
                    lemma_first_index_works(self.names(), token@);
                }
                Some(self.q_by_token[i])
            },
            None => None,
        }
    }

    /// The aggregated geometric liquidity between two tokens, if the graph
    /// knows both.
    pub fn liquidity_between(&self, token_a: &String, token_b: &String) -> (r: Option<u64>)
        requires
            self.wf(),
        ensures
            match r {
                Some(x) => self.names().contains(token_a@) && self.names().contains(token_b@)
                    && x == pair_at(
                    self.liq(),
                    first_index(self.names(), token_a@),
                    first_index(self.names(), token_b@),
                ),
                None => !(self.names().contains(token_a@) && self.names().contains(token_b@)),
            },
    {
        match (find_token(&self.token_index, token_a), find_token(&self.token_index, token_b)) {
            (Some(a), Some(b)) => {
                proof {
                    lemma_first_index_works(self.names(), token_a@);
                    lemma_first_index_works(self.names(), token_b@);
                }
                Some(self.liquidity_by_pair.get(a, b))
            },
            _ => None,
        }
    }

    /// How many Gauss-Seidel sweeps the most recent solve performed; 0 before
    /// the first solve.  Always within the iteration cap.
    pub fn last_sweep_count(&self) -> (s: usize)
        ensures
            s as nat == self.sweep_count(),
    {
        self.last_sweeps
    }
}

/// The aggregated graph is undirected: the liquidity a router stores between
/// two tokens does not depend on the order in which the pair is asked for.
pub proof fn lemma_liquidity_symmetric(r: Router, u: int, v: int)
    ensures
        pair_at(r.liq(), u, v) == pair_at(r.liq(), v, u),
{
}

/// Zero-trade idempotence: on a router at an exact equilibrium, the state
/// that `solve`'s contract pins down for an accepted zero-amount trade is
/// the state itself, and the returned amount is exactly zero.  (Away from an
/// exact equilibrium a zero trade is only near-zero, the prices moving by
/// rounding-sized steps.)
pub proof fn lemma_zero_trade_on_router(r: Router, i: int, o: int)
    requires
        r.wf(),
        0 <= i < r.names().len(),
        0 <= o < r.names().len(),
        exact_equilibrium(r.liq(), r.reserves(), r.prices(), o),
    ensures
        ({
            let t1 = r.reserves().update(i, fp_add(r.reserves()[i] as int, 0) as u64);
            let qf = solved_prices(r.liq(), t1, r.prices(), o);
            &&& t1 == r.reserves()
            &&& qf == r.prices()
            &&& t1.update(o, extract_sum(r.liq(), qf, o) as u64) == r.reserves()
            &&& t1[o] as int - extract_sum(r.liq(), qf, o) == 0
        }),
{
    lemma_zero_trade_idempotent(r.liq(), r.reserves(), r.prices(), i, o);
}

/// The saturated sum, as a `u64` value, used to phrase ghost steps.
pub open spec fn sat_add_value(a: u64, b: u64) -> u64 {
    fp_add(a as int, b as int) as u64
}

/// Index of the first token of `names` whose name equals `t`, if any.
fn find_token(names: &Vec<String>, t: &String) -> (r: Option<usize>)
    ensures
        match r {
            Some(i) => names_seq(names@).contains(t@) && i as int == first_index(
                names_seq(names@),
                t@,
            ),
            None => !names_seq(names@).contains(t@),
        },
{
    let mut i: usize = 0;
    while i < names.len()
        invariant
            i <= names@.len(),
            forall|j: int| 0 <= j < i ==> names_seq(names@)[j] != t@,
        decreases names@.len() - i,
    {
        let name = &names[i];
        if *name == *t {
            proof {
                lemma_first_index_of(names_seq(names@), t@, i as int);
            }
            return Some(i);
        }
        i += 1;
    }
    proof {
        assert(forall|j: int|
            0 <= j < names_seq(names@).len() ==> names_seq(names@)[j] != t@);
    }
    None
}

/// Index of a token known to be present.
fn index_of_token(names: &Vec<String>, t: &String) -> (i: usize)
    requires
        names_seq(names@).contains(t@),
    ensures
        i as int == first_index(names_seq(names@), t@),
        (i as int) < names@.len(),
{
    proof {
        lemma_first_index_works(names_seq(names@), t@);
    }
    match find_token(names, t) {
        Some(i) => i,
        None => unreached(),
    }
}

} // verus!
