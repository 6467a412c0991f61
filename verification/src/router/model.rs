//! Mathematical model of graph construction and of the equilibrium solver.
//!
//! Every function here mirrors, step for step, the arithmetic the router
//! performs: the exec code is proved equal to these definitions, and the
//! higher-level laws are proved of the definitions.

use crate::fixed::{fp_add, fp_mul_div, rel_change_small, sqrt_floor, MAX_SWEEPS, SCALE};
use crate::router::liquidities::{is_square, lemma_pair_update, pair_at, pair_update, zero_matrix};
use crate::uni_v2_pool::PoolModel;
use vstd::prelude::*;

verus! {

// ---------------------------------------------------------------------------
// Token enumeration: first-seen order over the pool list.
// ---------------------------------------------------------------------------
/// `names` with `t` appended if it is not already present.
pub open spec fn insert_name(names: Seq<Seq<char>>, t: Seq<char>) -> Seq<Seq<char>> {
    if names.contains(t) {
        names
    } else {
        names.push(t)
    }
}

/// The distinct token names of the first `i` pools, in first-seen order,
/// each pool contributing its first token before its second.
pub open spec fn token_names_prefix(pools: Seq<PoolModel>, i: int) -> Seq<Seq<char>>
    decreases i,
{
    if i <= 0 {
        Seq::empty()
    } else {
        insert_name(
            insert_name(token_names_prefix(pools, i - 1), pools[i - 1].token0),
            pools[i - 1].token1,
        )
    }
}

/// The distinct token names of a pool list, in first-seen order.
pub open spec fn token_names_of(pools: Seq<PoolModel>) -> Seq<Seq<char>> {
    token_names_prefix(pools, pools.len() as int)
}

/// Index of the first occurrence of `t` in `names` (meaningful only when `t`
/// occurs).
pub open spec fn first_index(names: Seq<Seq<char>>, t: Seq<char>) -> int
    decreases names.len(),
{
    if names.len() == 0 {
        0
    } else if names[0] == t {
        0
    } else {
        1 + first_index(names.skip(1), t)
    }
}

/// When `t` occurs in `names`, `first_index` points at its first occurrence.
pub proof fn lemma_first_index_works(names: Seq<Seq<char>>, t: Seq<char>)
    requires
        names.contains(t),
    ensures
        0 <= first_index(names, t) < names.len(),
        names[first_index(names, t)] == t,
        forall|j: int| 0 <= j < first_index(names, t) ==> names[j] != t,
    decreases names.len(),
{
    if names[0] == t {
    } else {
        assert(names.skip(1).contains(t)) by {
            let k = choose|k: int| 0 <= k < names.len() && names[k] == t;
            assert(names.skip(1)[k - 1] == t);
        }
        lemma_first_index_works(names.skip(1), t);
        let fi = first_index(names, t);
        assert forall|j: int| 0 <= j < fi implies names[j] != t by {
            if j > 0 {
                assert(names.skip(1)[j - 1] == names[j]);
            }
        }
        assert(names[fi] == names.skip(1)[fi - 1]);
    }
}

/// The first occurrence determines `first_index`: an element preceded by no
/// equal element is at `first_index`.
pub proof fn lemma_first_index_of(names: Seq<Seq<char>>, t: Seq<char>, i: int)
    requires
        0 <= i < names.len(),
        names[i] == t,
        forall|j: int| 0 <= j < i ==> names[j] != t,
    ensures
        names.contains(t),
        first_index(names, t) == i,
    decreases names.len(),
{
    assert(names.contains(t));
    if names[0] == t {
        assert(i == 0);
    } else {
        assert(names.skip(1)[i - 1] == t);
        assert forall|j: int| 0 <= j < i - 1 implies names.skip(1)[j] != t by {
            assert(names.skip(1)[j] == names[j + 1]);
        }
        lemma_first_index_of(names.skip(1), t, i - 1);
    }
}

/// Inserting keeps every name already present, adds the inserted one, and
/// never disturbs the indices of earlier names.
pub proof fn lemma_insert_name(names: Seq<Seq<char>>, t: Seq<char>)
    ensures
        insert_name(names, t).contains(t),
        forall|x: Seq<char>| names.contains(x) ==> insert_name(names, t).contains(x),
        forall|j: int| 0 <= j < names.len() ==> insert_name(names, t)[j] == names[j],
        names.len() <= insert_name(names, t).len(),
{
    if !names.contains(t) {
        assert(names.push(t)[names.len() as int] == t);
        assert forall|x: Seq<char>| names.contains(x) implies insert_name(names, t).contains(x) by {
            let k = choose|k: int| 0 <= k < names.len() && names[k] == x;
            assert(names.push(t)[k] == x);
        }
    }
}

/// Every token of every pool occurs among the pool list's token names.
pub proof fn lemma_tokens_present(pools: Seq<PoolModel>, i: int, k: int)
    requires
        0 <= k < i <= pools.len(),
    ensures
        token_names_prefix(pools, i).contains(pools[k].token0),
        token_names_prefix(pools, i).contains(pools[k].token1),
    decreases i,
{
    let prev = token_names_prefix(pools, i - 1);
    let mid = insert_name(prev, pools[i - 1].token0);
    lemma_insert_name(prev, pools[i - 1].token0);
    lemma_insert_name(mid, pools[i - 1].token1);
    if k < i - 1 {
        lemma_tokens_present(pools, i - 1, k);
    }
}

/// A name sequence without repetitions.
pub open spec fn distinct_names(names: Seq<Seq<char>>) -> bool {
    forall|j: int, k: int| 0 <= j < k < names.len() ==> names[j] != names[k]
}

/// Inserting preserves distinctness: a name is only appended when absent.
pub proof fn lemma_insert_name_distinct(names: Seq<Seq<char>>, t: Seq<char>)
    requires
        distinct_names(names),
    ensures
        distinct_names(insert_name(names, t)),
{
    if !names.contains(t) {
        let pushed = names.push(t);
        assert forall|j: int, k: int| 0 <= j < k < pushed.len() implies pushed[j] != pushed[k] by {
            if k == names.len() as int {
                assert(!names.contains(t));
                assert(names[j] != t);
            }
        }
    }
}

/// Every distinct token name of the pool list maps to exactly one index:
/// the enumeration never repeats a name.
pub proof fn lemma_token_names_distinct(pools: Seq<PoolModel>, i: int)
    requires
        i <= pools.len(),
    ensures
        distinct_names(token_names_prefix(pools, i)),
    decreases i,
{
    if i <= 0 {
    } else {
        lemma_token_names_distinct(pools, i - 1);
        let prev = token_names_prefix(pools, i - 1);
        lemma_insert_name_distinct(prev, pools[i - 1].token0);
        lemma_insert_name_distinct(insert_name(prev, pools[i - 1].token0), pools[i - 1].token1);
    }
}

/// In a distinct name sequence, looking an entry up by name gives back its
/// own index: name and index determine each other.
pub proof fn lemma_canonical_index(names: Seq<Seq<char>>, x: int)
    requires
        distinct_names(names),
        0 <= x < names.len(),
    ensures
        names.contains(names[x]),
        first_index(names, names[x]) == x,
{
    lemma_first_index_of(names, names[x], x);
}

// ---------------------------------------------------------------------------
// Aggregation: total reserves and pairwise geometric liquidity.
// ---------------------------------------------------------------------------
/// Total reserve per token after folding the first `i` pools: each pool adds
/// its first reserve to its first token, then its second reserve to its
/// second token, saturating.
pub open spec fn reserves_prefix(pools: Seq<PoolModel>, names: Seq<Seq<char>>, i: int) -> Seq<u64>
    decreases i,
{
    if i <= 0 {
        Seq::new(names.len(), |k: int| 0u64)
    } else {
        let s = reserves_prefix(pools, names, i - 1);
        let p = pools[i - 1];
        let i0 = first_index(names, p.token0);
        let i1 = first_index(names, p.token1);
        let s0 = s.update(i0, fp_add(s[i0] as int, p.reserve0) as u64);
        s0.update(i1, fp_add(s0[i1] as int, p.reserve1) as u64)
    }
}

/// Total reserve per token over the whole pool list.
pub open spec fn reserves_of(pools: Seq<PoolModel>, names: Seq<Seq<char>>) -> Seq<u64> {
    reserves_prefix(pools, names, pools.len() as int)
}

/// Plain (non-saturating) total of the reserves token `t` holds across the
/// first `i` pools, on either side.
pub open spec fn reserve_sum_prefix(pools: Seq<PoolModel>, t: Seq<char>, i: int) -> int
    decreases i,
{
    if i <= 0 {
        0
    } else {
        reserve_sum_prefix(pools, t, i - 1) + (if pools[i - 1].token0 == t {
            pools[i - 1].reserve0
        } else {
            0
        }) + (if pools[i - 1].token1 == t {
            pools[i - 1].reserve1
        } else {
            0
        })
    }
}

/// Every pool reserve is nonnegative.
pub open spec fn nonnegative_reserves(pools: Seq<PoolModel>) -> bool {
    forall|k: int|
        0 <= k < pools.len() ==> (#[trigger] pools[k]).reserve0 >= 0 && pools[k].reserve1 >= 0
}

/// With nonnegative reserves, a longer prefix sums to no less.
pub proof fn lemma_reserve_sum_monotone(pools: Seq<PoolModel>, t: Seq<char>, i: int, j: int)
    requires
        nonnegative_reserves(pools),
        0 <= i <= j <= pools.len(),
    ensures
        reserve_sum_prefix(pools, t, i) <= reserve_sum_prefix(pools, t, j),
    decreases j,
{
    if i < j {
        lemma_reserve_sum_monotone(pools, t, i, j - 1);
    }
}

/// Where no token's total overflows, the saturating reserve fold is plain
/// summation: every token's aggregated total is exactly the sum of its
/// reserves over the pools it appears in, on either side.
pub proof fn lemma_reserves_are_sums(pools: Seq<PoolModel>, names: Seq<Seq<char>>, i: int)
    requires
        distinct_names(names),
        nonnegative_reserves(pools),
        0 <= i <= pools.len(),
        forall|k: int|
            0 <= k < pools.len() ==> names.contains((#[trigger] pools[k]).token0)
                && names.contains(pools[k].token1),
        forall|x: int|
            0 <= x < names.len() ==> reserve_sum_prefix(pools, names[x], pools.len() as int)
                <= u64::MAX,
    ensures
        reserves_prefix(pools, names, i).len() == names.len(),
        forall|x: int|
            0 <= x < names.len() ==> (#[trigger] reserves_prefix(pools, names, i)[x]) as int
                == reserve_sum_prefix(pools, names[x], i),
    decreases i,
{
    if i <= 0 {
    } else {
        lemma_reserves_are_sums(pools, names, i - 1);
        let s = reserves_prefix(pools, names, i - 1);
        let p = pools[i - 1];
        let i0 = first_index(names, p.token0);
        let i1 = first_index(names, p.token1);
        lemma_first_index_works(names, p.token0);
        lemma_first_index_works(names, p.token1);
        assert forall|x: int| 0 <= x < names.len() implies (names[x] == p.token0 <==> x == i0)
            && (names[x] == p.token1 <==> x == i1) by {
            if names[x] == p.token0 && x != i0 {
                assert(names[x] == names[i0]);
            }
            if names[x] == p.token1 && x != i1 {
                assert(names[x] == names[i1]);
            }
        }
        assert forall|x: int| 0 <= x < names.len() implies reserve_sum_prefix(pools, names[x], i)
            <= u64::MAX by {
            lemma_reserve_sum_monotone(pools, names[x], i, pools.len() as int);
        }
        assert(reserve_sum_prefix(pools, names[i0], i - 1) + p.reserve0 <= u64::MAX) by {
            assert(reserve_sum_prefix(pools, names[i0], i) <= u64::MAX);
        }
    }
}

/// Aggregation over a whole pool list, read as plain sums: where no token's
/// total overflows, a graph built from the list holds, for every token,
/// exactly the sum of that token's reserves over all pools.
pub proof fn lemma_reserves_of_are_sums(pools: Seq<PoolModel>)
    requires
        nonnegative_reserves(pools),
        forall|x: int|
            0 <= x < token_names_of(pools).len() ==> reserve_sum_prefix(
                pools,
                token_names_of(pools)[x],
                pools.len() as int,
            ) <= u64::MAX,
    ensures
        forall|x: int|
            0 <= x < token_names_of(pools).len() ==> (#[trigger] reserves_of(
                pools,
                token_names_of(pools),
            )[x]) as int == reserve_sum_prefix(pools, token_names_of(pools)[x], pools.len() as int),
{
    lemma_token_names_distinct(pools, pools.len() as int);
    assert forall|k: int| 0 <= k < pools.len() implies token_names_of(pools).contains(
        (#[trigger] pools[k]).token0,
    ) && token_names_of(pools).contains(pools[k].token1) by {
        lemma_tokens_present(pools, pools.len() as int, k);
    }
    lemma_reserves_are_sums(pools, token_names_of(pools), pools.len() as int);
}

/// Pairwise liquidity after folding the first `i` pools: each pool adds the
/// floor square root of the product of its two reserves to the cell of its
/// token pair, saturating.
pub open spec fn liq_prefix(pools: Seq<PoolModel>, names: Seq<Seq<char>>, i: int) -> Seq<Seq<u64>>
    decreases i,
{
    if i <= 0 {
        zero_matrix(names.len() as int)
    } else {
        let m = liq_prefix(pools, names, i - 1);
        let p = pools[i - 1];
        let i0 = first_index(names, p.token0);
        let i1 = first_index(names, p.token1);
        pair_update(
            m,
            i0,
            i1,
            fp_add(pair_at(m, i0, i1) as int, sqrt_floor(p.reserve0 * p.reserve1)) as u64,
        )
    }
}

/// Pairwise liquidity over the whole pool list.
pub open spec fn liq_of(pools: Seq<PoolModel>, names: Seq<Seq<char>>) -> Seq<Seq<u64>> {
    liq_prefix(pools, names, pools.len() as int)
}

/// Plain (non-saturating) sum of `sqrt(r0 * r1)` over the first `i` pools
/// that link the unordered token pair `{a, b}`, whichever side holds which
/// token.
pub open spec fn liq_sum_prefix(pools: Seq<PoolModel>, a: Seq<char>, b: Seq<char>, i: int) -> int
    decreases i,
{
    if i <= 0 {
        0
    } else {
        liq_sum_prefix(pools, a, b, i - 1) + (if (pools[i - 1].token0 == a && pools[i - 1].token1
            == b) || (pools[i - 1].token0 == b && pools[i - 1].token1 == a) {
            sqrt_floor(pools[i - 1].reserve0 * pools[i - 1].reserve1)
        } else {
            0
        })
    }
}

/// The liquidity sum of a pair does not depend on the order of the pair.
pub proof fn lemma_liq_sum_symmetric(pools: Seq<PoolModel>, a: Seq<char>, b: Seq<char>, i: int)
    ensures
        liq_sum_prefix(pools, a, b, i) == liq_sum_prefix(pools, b, a, i),
    decreases i,
{
    if i > 0 {
        lemma_liq_sum_symmetric(pools, a, b, i - 1);
    }
}

/// With nonnegative reserves, a longer prefix of the liquidity sum is no
/// smaller.
pub proof fn lemma_liq_sum_monotone(pools: Seq<PoolModel>, a: Seq<char>, b: Seq<char>, i: int, j: int)
    requires
        nonnegative_reserves(pools),
        0 <= i <= j <= pools.len(),
    ensures
        liq_sum_prefix(pools, a, b, i) <= liq_sum_prefix(pools, a, b, j),
    decreases j,
{
    if i < j {
        lemma_liq_sum_monotone(pools, a, b, i, j - 1);
        let p = pools[j - 1];
        assert(p.reserve0 * p.reserve1 >= 0) by (nonlinear_arith)
            requires
                p.reserve0 >= 0,
                p.reserve1 >= 0,
        ;
        crate::fixed::lemma_sqrt_floor_bounds(p.reserve0 * p.reserve1);
    }
}

/// Where no pair's liquidity overflows, the saturating liquidity fold is
/// plain summation: each unordered pair's aggregated liquidity is exactly
/// the sum of `sqrt(r0 * r1)` over the pools linking that pair, regardless
/// of which side of each pool holds which token.
pub proof fn lemma_liq_are_sums(pools: Seq<PoolModel>, names: Seq<Seq<char>>, i: int)
    requires
        distinct_names(names),
        nonnegative_reserves(pools),
        0 <= i <= pools.len(),
        forall|k: int|
            0 <= k < pools.len() ==> names.contains((#[trigger] pools[k]).token0)
                && names.contains(pools[k].token1),
        forall|x: int, y: int|
            0 <= x < names.len() && 0 <= y < names.len() ==> liq_sum_prefix(
                pools,
                names[x],
                names[y],
                pools.len() as int,
            ) <= u64::MAX,
    ensures
        is_square(liq_prefix(pools, names, i), names.len() as int),
        forall|x: int, y: int|
            0 <= x < names.len() && 0 <= y < names.len() ==> (#[trigger] pair_at(
                liq_prefix(pools, names, i),
                x,
                y,
            )) as int == liq_sum_prefix(pools, names[x], names[y], i),
    decreases i,
{
    if i <= 0 {
    } else {
        lemma_liq_are_sums(pools, names, i - 1);
        let m = liq_prefix(pools, names, i - 1);
        let p = pools[i - 1];
        let i0 = first_index(names, p.token0);
        let i1 = first_index(names, p.token1);
        lemma_first_index_works(names, p.token0);
        lemma_first_index_works(names, p.token1);
        assert forall|x: int| 0 <= x < names.len() implies (names[x] == p.token0 <==> x == i0)
            && (names[x] == p.token1 <==> x == i1) by {
            if names[x] == p.token0 && x != i0 {
                assert(names[x] == names[i0]);
            }
            if names[x] == p.token1 && x != i1 {
                assert(names[x] == names[i1]);
            }
        }
        assert(p.reserve0 * p.reserve1 >= 0) by (nonlinear_arith)
            requires
                p.reserve0 >= 0,
                p.reserve1 >= 0,
        ;
        crate::fixed::lemma_sqrt_floor_bounds(p.reserve0 * p.reserve1);
        let v = fp_add(pair_at(m, i0, i1) as int, sqrt_floor(p.reserve0 * p.reserve1)) as u64;
        lemma_pair_update(m, names.len() as int, i0, i1, v);
        assert(liq_sum_prefix(pools, names[i0], names[i1], i - 1) + sqrt_floor(
            p.reserve0 * p.reserve1,
        ) <= u64::MAX) by {
            lemma_liq_sum_monotone(pools, names[i0], names[i1], i, pools.len() as int);
        }
        assert forall|x: int, y: int| 0 <= x < names.len() && 0 <= y < names.len() implies (
        #[trigger] pair_at(liq_prefix(pools, names, i), x, y)) as int == liq_sum_prefix(
            pools,
            names[x],
            names[y],
            i,
        ) by {
            if (x == i0 && y == i1) || (x == i1 && y == i0) {
                assert(pair_at(liq_prefix(pools, names, i), x, y) == v);
                lemma_liq_sum_symmetric(pools, names[x], names[y], i - 1);
                assert(liq_sum_prefix(pools, names[x], names[y], i) == liq_sum_prefix(
                    pools,
                    names[x],
                    names[y],
                    i - 1,
                ) + sqrt_floor(p.reserve0 * p.reserve1));
            } else {
                assert(pair_at(liq_prefix(pools, names, i), x, y) == pair_at(m, x, y));
                assert(liq_sum_prefix(pools, names[x], names[y], i) == liq_sum_prefix(
                    pools,
                    names[x],
                    names[y],
                    i - 1,
                ));
            }
        }
    }
}

/// Aggregation over a whole pool list, read as plain sums: where no pair's
/// liquidity overflows, a graph built from the list holds, between every two
/// tokens, exactly the summed geometric liquidity of the pools linking them.
pub proof fn lemma_liq_of_are_sums(pools: Seq<PoolModel>)
    requires
        nonnegative_reserves(pools),
        forall|x: int, y: int|
            0 <= x < token_names_of(pools).len() && 0 <= y < token_names_of(pools).len()
                ==> liq_sum_prefix(
                pools,
                token_names_of(pools)[x],
                token_names_of(pools)[y],
                pools.len() as int,
            ) <= u64::MAX,
    ensures
        forall|x: int, y: int|
            0 <= x < token_names_of(pools).len() && 0 <= y < token_names_of(pools).len()
                ==> (#[trigger] pair_at(liq_of(pools, token_names_of(pools)), x, y)) as int
                == liq_sum_prefix(
                pools,
                token_names_of(pools)[x],
                token_names_of(pools)[y],
                pools.len() as int,
            ),
{
    lemma_token_names_distinct(pools, pools.len() as int);
    assert forall|k: int| 0 <= k < pools.len() implies token_names_of(pools).contains(
        (#[trigger] pools[k]).token0,
    ) && token_names_of(pools).contains(pools[k].token1) by {
        lemma_tokens_present(pools, pools.len() as int, k);
    }
    lemma_liq_are_sums(pools, token_names_of(pools), pools.len() as int);
}

// ---------------------------------------------------------------------------
// The Gauss-Seidel sweep.
// ---------------------------------------------------------------------------
/// First `j` terms of the denominator of token `u`'s price update:
/// `sum over v of K(u, v) / q_v` in fixed point, saturating.
pub open spec fn denom_prefix(m: Seq<Seq<u64>>, q: Seq<u64>, u: int, j: int) -> int
    decreases j,
{
    if j <= 0 {
        0
    } else {
        fp_add(
            denom_prefix(m, q, u, j - 1),
            fp_mul_div(pair_at(m, u, j - 1) as int, SCALE as int, q[j - 1] as int),
        )
    }
}

/// The updated price of token `u`: `T_u / (sum over v of K(u, v) / q_v)` in
/// fixed point, evaluated at the current prices `q`.
pub open spec fn updated_q(m: Seq<Seq<u64>>, t: Seq<u64>, q: Seq<u64>, u: int) -> int {
    fp_mul_div(t[u] as int, SCALE as int, denom_prefix(m, q, u, q.len() as int))
}

/// One Gauss-Seidel sweep over the tokens below `u`, skipping the output
/// token `f`: the prices after the sweep, paired with whether every update so
/// far stayed within the convergence tolerance.
pub open spec fn sweep_prefix(
    m: Seq<Seq<u64>>,
    t: Seq<u64>,
    q: Seq<u64>,
    f: int,
    u: int,
) -> (Seq<u64>, bool)
    decreases u,
{
    if u <= 0 {
        (q, true)
    } else {
        let (q1, ok1) = sweep_prefix(m, t, q, f, u - 1);
        if u - 1 == f {
            (q1, ok1)
        } else {
            let nq = updated_q(m, t, q1, u - 1);
            (
                q1.update(u - 1, nq as u64),
                ok1 && rel_change_small(q1[u - 1] as int, nq),
            )
        }
    }
}

/// One full sweep: prices after updating every non-output token in ascending
/// index order.
pub open spec fn sweep(m: Seq<Seq<u64>>, t: Seq<u64>, q: Seq<u64>, f: int) -> (Seq<u64>, bool) {
    sweep_prefix(m, t, q, f, q.len() as int)
}

/// The prices after running sweeps until one converges or `fuel` sweeps have
/// run.  The converging sweep itself is applied before iteration stops.
pub open spec fn run_prices(m: Seq<Seq<u64>>, t: Seq<u64>, q: Seq<u64>, f: int, fuel: nat) -> Seq<
    u64,
>
    decreases fuel,
{
    if fuel == 0 {
        q
    } else {
        let (q1, ok) = sweep(m, t, q, f);
        if ok {
            q1
        } else {
            run_prices(m, t, q1, f, (fuel - 1) as nat)
        }
    }
}

/// How many sweeps the run performs before converging or exhausting `fuel`.
pub open spec fn run_sweeps(m: Seq<Seq<u64>>, t: Seq<u64>, q: Seq<u64>, f: int, fuel: nat) -> nat
    decreases fuel,
{
    if fuel == 0 {
        0
    } else {
        let (q1, ok) = sweep(m, t, q, f);
        if ok {
            1
        } else {
            1 + run_sweeps(m, t, q1, f, (fuel - 1) as nat)
        }
    }
}

/// The sweep count never exceeds the fuel: the solver always terminates
/// within the iteration cap.
pub proof fn lemma_run_sweeps_le_fuel(m: Seq<Seq<u64>>, t: Seq<u64>, q: Seq<u64>, f: int, fuel: nat)
    ensures
        run_sweeps(m, t, q, f, fuel) <= fuel,
    decreases fuel,
{
    if fuel > 0 {
        let (q1, ok) = sweep(m, t, q, f);
        lemma_run_sweeps_le_fuel(m, t, q1, f, (fuel - 1) as nat);
    }
}

// ---------------------------------------------------------------------------
// Renormalization and output extraction.
// ---------------------------------------------------------------------------
/// Every price divided (in fixed point) by the price of the reference token,
/// index 0, so that the reference token's price becomes 1.0.
pub open spec fn normalized(q: Seq<u64>) -> Seq<u64> {
    Seq::new(q.len(), |i: int| fp_mul_div(q[i] as int, SCALE as int, q[0] as int) as u64)
}

/// First `j` terms of the post-equilibrium reserve of the output token `f`:
/// `sum over v of K(f, v) * q_f / q_v` in fixed point, saturating.
pub open spec fn extract_prefix(m: Seq<Seq<u64>>, q: Seq<u64>, f: int, j: int) -> int
    decreases j,
{
    if j <= 0 {
        0
    } else {
        fp_add(
            extract_prefix(m, q, f, j - 1),
            fp_mul_div(pair_at(m, f, j - 1) as int, q[f] as int, q[j - 1] as int),
        )
    }
}

/// The post-equilibrium total reserve of the output token `f`, evaluated at
/// the prices `q`.
pub open spec fn extract_sum(m: Seq<Seq<u64>>, q: Seq<u64>, f: int) -> int {
    extract_prefix(m, q, f, q.len() as int)
}

/// The complete effect of one solve on the price vector: run the sweeps from
/// the current prices, then renormalize against the reference token.
pub open spec fn solved_prices(m: Seq<Seq<u64>>, t: Seq<u64>, q: Seq<u64>, f: int) -> Seq<u64> {
    normalized(run_prices(m, t, q, f, MAX_SWEEPS as nat))
}

/// The prices `q` are an exact, normalized equilibrium of the graph
/// `(m, t)` with output token `f`: a sweep leaves every price unchanged and
/// within tolerance, the reference token's price is exactly 1.0, and the
/// output token's reserve already satisfies its balance law.
pub open spec fn exact_equilibrium(m: Seq<Seq<u64>>, t: Seq<u64>, q: Seq<u64>, f: int) -> bool {
    &&& sweep(m, t, q, f).0 == q
    &&& sweep(m, t, q, f).1 == true
    &&& q.len() >= 1
    &&& q[0] == SCALE
    &&& t[f] as int == extract_sum(m, q, f)
}

/// Zero-trade idempotence at an exact equilibrium: adding nothing to the
/// input token's reserve, solving, and extracting returns exactly zero and
/// leaves every reserve and every price unchanged, and the solver converges
/// in a single sweep.  (Away from an exact equilibrium a zero trade is only
/// near-zero, since prices move by rounding-sized steps.)
pub proof fn lemma_zero_trade_idempotent(
    m: Seq<Seq<u64>>,
    t: Seq<u64>,
    q: Seq<u64>,
    i: int,
    f: int,
)
    requires
        0 <= i < t.len(),
        0 <= f < t.len(),
        exact_equilibrium(m, t, q, f),
    ensures
        t.update(i, fp_add(t[i] as int, 0) as u64) == t,
        solved_prices(m, t, q, f) == q,
        t.update(f, extract_sum(m, solved_prices(m, t, q, f), f) as u64) == t,
        t[f] as int - extract_sum(m, solved_prices(m, t, q, f), f) == 0,
        run_sweeps(m, t, q, f, MAX_SWEEPS as nat) == 1,
{
    assert(t.update(i, fp_add(t[i] as int, 0) as u64) =~= t);
    assert(run_prices(m, t, q, f, MAX_SWEEPS as nat) == q);
    assert forall|k: int| 0 <= k < q.len() implies fp_mul_div(q[k] as int, SCALE as int, q[0] as int)
        == q[k] as int by {
        assert(q[k] as int * SCALE as int / SCALE as int == q[k] as int) by (nonlinear_arith)
            requires
                SCALE as int > 0,
        ;
    }
    assert(normalized(q) =~= q);
    assert(t.update(f, extract_sum(m, q, f) as u64) =~= t);
}

} // verus!
