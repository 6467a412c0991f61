//! A single two-token constant-product liquidity pool.

use crate::fixed::{fp_add, fp_mul_div, mul_div, sat_add, SCALE};
use vstd::prelude::*;

verus! {

/// Mathematical image of a pool: the two token names and the two fixed-point
/// reserves, as plain values.
pub struct PoolModel {
    pub token0: Seq<char>,
    pub token1: Seq<char>,
    pub reserve0: int,
    pub reserve1: int,
}

/// A two-token constant-product pool: a stateless record consumed at graph
/// construction time.  Reserves are fixed-point quantities.
#[derive(Debug, Clone)]
pub struct UniV2Pool {
    pub token0: String,
    pub token1: String,
    pub reserve0: u64,
    pub reserve1: u64,
}

impl View for UniV2Pool {
    type V = PoolModel;

    open spec fn view(&self) -> PoolModel {
        PoolModel {
            token0: self.token0@,
            token1: self.token1@,
            reserve0: self.reserve0 as int,
            reserve1: self.reserve1 as int,
        }
    }
}

impl UniV2Pool {
    /// Both reserves are positive.
    pub open spec fn valid(self) -> bool {
        self.reserve0 >= 1 && self.reserve1 >= 1
    }

    /// Whether the pool holds the given token on either side.
    pub open spec fn owns_token(self, token: Seq<char>) -> bool {
        token == self.token0@ || token == self.token1@
    }

    /// The reserve on the side of the given token, `reserve1` when the token
    /// matches neither side.
    pub open spec fn reserve_toward(self, token: Seq<char>) -> int {
        if token == self.token0@ {
            self.reserve0 as int
        } else {
            self.reserve1 as int
        }
    }

    /// The reserve on the side opposite the given token, `reserve0` when the
    /// token matches neither side.
    pub open spec fn reserve_against(self, token: Seq<char>) -> int {
        if token == self.token0@ {
            self.reserve1 as int
        } else {
            self.reserve0 as int
        }
    }

    pub fn new(token0: String, token1: String, reserve0: u64, reserve1: u64) -> (p: Self)
        requires
            reserve0 >= 1,
            reserve1 >= 1,
        ensures
            p.token0@ == token0@,
            p.token1@ == token1@,
            p.reserve0 == reserve0,
            p.reserve1 == reserve1,
            p.valid(),
    {
        Self { token0, token1, reserve0, reserve1 }
    }

    /// How much of the opposite token the pool pays out when `input_amount`
    /// of `input_token` is added to it: the constant-product swap
    /// `in * r_out / (r_in + in)` in fixed point.
    pub fn get_output_amount(&self, input_token: &String, input_amount: u64) -> (r: u64)
        requires
            self.owns_token(input_token@),
        ensures
            r as int == fp_mul_div(
                input_amount as int,
                self.reserve_against(input_token@),
                fp_add(self.reserve_toward(input_token@), input_amount as int),
            ),
    {
        let (reserve_in, reserve_out) = if *input_token == self.token0 {
            (self.reserve0, self.reserve1)
        } else {
            (self.reserve1, self.reserve0)
        };
        mul_div(input_amount, reserve_out, sat_add(reserve_in, input_amount))
    }

    /// The instantaneous price `r_in / r_out` in fixed point, given mostly for
    /// information purposes.
    pub fn get_spot_price(&self, input_token: &String) -> (r: u64)
        requires
            self.owns_token(input_token@),
        ensures
            r as int == fp_mul_div(
                self.reserve_toward(input_token@),
                SCALE as int,
                self.reserve_against(input_token@),
            ),
    {
        let (reserve_in, reserve_out) = if *input_token == self.token0 {
            (self.reserve0, self.reserve1)
        } else {
            (self.reserve1, self.reserve0)
        };
        mul_div(reserve_in, SCALE, reserve_out)
    }
}

} // verus!
