//! The liquidity pool: reserve bookkeeping, liquidity provision and swaps.
use crate::fixed::{decimal_div, decimal_mul, fits, fixed_div, fixed_mul, Dec, HUNDRED};
use crate::pricing::{
    consumed_amounts, deposit_amounts, input_amount, input_for, minted_amount, output_amount, output_for,
    tracking_amount,
};
use crate::resource::{id_less, id_lt, same_id, Holding, ResourceId};
use vstd::prelude::*;

verus! {

/// Why an operation on the pool was refused. A refused operation leaves the
/// pool as it was.
#[derive(Clone, Copy, Debug, PartialEq, Eq, Structural)]
pub enum PoolError {
    /// Malformed input: the same token twice, a non-fungible token, an empty
    /// holding, a fee outside `[0, 100]`, or foreign ownership tokens.
    Validation,
    /// A token that is neither of the pool's two tokens.
    NotPoolMember,
    /// More than the pool holds was asked for.
    InsufficientLiquidity,
    /// A holding smaller than the input an exact-output swap requires.
    InsufficientInput,
    /// The output of a swap fell short of the caller's minimum.
    Slippage,
    /// A fixed-point step left the representable range or divided by zero.
    Arithmetic,
}

/// An error together with the label of the operation that raised it.
#[derive(Clone, Debug)]
pub struct LabelledError {
    pub error: PoolError,
    pub label: String,
}

/// The abstract state of a pool.
pub struct PoolModel {
    pub token1: Seq<u8>,
    pub token2: Seq<u8>,
    pub tracking: Seq<u8>,
    pub reserve1: int,
    pub reserve2: int,
    pub supply: int,
    pub fee: int,
}

impl PoolModel {
    /// The pool's invariant: two tokens in canonical order, non-negative
    /// reserves and supply, and a fee in `[0, 100]`.
    pub open spec fn valid(self) -> bool {
        &&& id_lt(self.token1, self.token2)
        &&& fits(self.reserve1)
        &&& fits(self.reserve2)
        &&& fits(self.supply)
        &&& 0 <= self.fee <= HUNDRED
    }

    pub open spec fn member(self, id: Seq<u8>) -> bool {
        id == self.token1 || id == self.token2
    }

    /// The pool's other token.
    pub open spec fn other(self, id: Seq<u8>) -> Seq<u8> {
        if id == self.token1 {
            self.token2
        } else {
            self.token1
        }
    }

    pub open spec fn reserve_of(self, id: Seq<u8>) -> int {
        if id == self.token1 {
            self.reserve1
        } else {
            self.reserve2
        }
    }

    pub open spec fn with_reserve(self, id: Seq<u8>, v: int) -> PoolModel {
        if id == self.token1 {
            PoolModel { reserve1: v, ..self }
        } else {
            PoolModel { reserve2: v, ..self }
        }
    }

    /// The constant product `reserve1 * reserve2`, exact.
    pub open spec fn product(self) -> int {
        self.reserve1 * self.reserve2
    }

    /// Adding `amount` to the reserve of `id`.
    pub open spec fn deposit(self, id: Seq<u8>, amount: int) -> Result<PoolModel, PoolError> {
        if !self.member(id) {
            Err(PoolError::NotPoolMember)
        } else if !fits(self.reserve_of(id) + amount) {
            Err(PoolError::Arithmetic)
        } else {
            Ok(self.with_reserve(id, self.reserve_of(id) + amount))
        }
    }

    /// Taking `amount` out of the reserve of `id`.
    pub open spec fn withdraw(self, id: Seq<u8>, amount: int) -> Result<PoolModel, PoolError> {
        if !self.member(id) {
            Err(PoolError::NotPoolMember)
        } else if amount > self.reserve_of(id) {
            Err(PoolError::InsufficientLiquidity)
        } else {
            Ok(self.with_reserve(id, self.reserve_of(id) - amount))
        }
    }

    /// What `dx` of token `id` buys of the other token.
    pub open spec fn output_quote(self, id: Seq<u8>, dx: int) -> Result<int, PoolError> {
        if !self.member(id) {
            Err(PoolError::NotPoolMember)
        } else {
            match output_for(self.reserve_of(id), self.reserve_of(self.other(id)), self.fee, dx) {
                Some(v) => Ok(v),
                None => Err(PoolError::Arithmetic),
            }
        }
    }

    /// How much of the other token it takes to get `dy` of token `id`.
    pub open spec fn input_quote(self, id: Seq<u8>, dy: int) -> Result<int, PoolError> {
        if !self.member(id) {
            Err(PoolError::NotPoolMember)
        } else if dy >= self.reserve_of(id) {
            Err(PoolError::InsufficientLiquidity)
        } else {
            match input_for(self.reserve_of(self.other(id)), self.reserve_of(id), self.fee, dy) {
                Some(v) => Ok(v),
                None => Err(PoolError::Arithmetic),
            }
        }
    }

    /// A swap of `dx` of token `id`: the pool pays out what `dx` buys of the
    /// other token, then takes `dx` in. Gives the new state and the output.
    pub open spec fn swap(self, id: Seq<u8>, dx: int) -> Result<(PoolModel, int), PoolError> {
        match self.output_quote(id, dx) {
            Err(e) => Err(e),
            Ok(dy) => match self.withdraw(self.other(id), dy) {
                Err(e) => Err(e),
                Ok(m1) => match m1.deposit(id, dx) {
                    Err(e) => Err(e),
                    Ok(m2) => Ok((m2, dy)),
                },
            },
        }
    }

    /// A swap that is refused when its output falls below `min_out`.
    pub open spec fn swap_exact_input(self, id: Seq<u8>, dx: int, min_out: int) -> Result<(PoolModel, int), PoolError> {
        match self.swap(id, dx) {
            Err(e) => Err(e),
            Ok((m, dy)) => if dy < min_out {
                Err(PoolError::Slippage)
            } else {
                Ok((m, dy))
            },
        }
    }

    /// A swap from a holding of `amount` of token `id` for exactly `want` of
    /// the other token. Gives the new state and what is left of the holding.
    pub open spec fn swap_exact_output(self, id: Seq<u8>, amount: int, want: int) -> Result<(PoolModel, int), PoolError> {
        if !self.member(id) {
            Err(PoolError::NotPoolMember)
        } else {
            match self.input_quote(self.other(id), want) {
                Err(e) => Err(e),
                Ok(need) => if amount < need {
                    Err(PoolError::InsufficientInput)
                } else {
                    match self.deposit(id, need) {
                        Err(e) => Err(e),
                        Ok(m1) => match m1.withdraw(self.other(id), want) {
                            Err(e) => Err(e),
                            Ok(m2) => Ok((m2, amount - need)),
                        },
                    }
                },
            }
        }
    }

    /// Adding liquidity from holdings of `a` of token `id_a` and `b` of token
    /// `id_b`. Gives the new state, what is left of the holdings of the first
    /// and second token in canonical order, and the ownership tokens minted.
    pub open spec fn add_liquidity(self, id_a: Seq<u8>, a: int, id_b: Seq<u8>, b: int) -> Result<(PoolModel, int, int, int), PoolError> {
        if !self.member(id_a) || !self.member(id_b) {
            Err(PoolError::NotPoolMember)
        } else if a == 0 || b == 0 || id_a == id_b {
            Err(PoolError::Validation)
        } else {
            let dm = if id_a == self.token1 { a } else { b };
            let dn = if id_a == self.token1 { b } else { a };
            match consumed_amounts(self.reserve1, self.reserve2, dm, dn) {
                None => Err(PoolError::Arithmetic),
                Some((a1, a2)) => match minted_amount(self.supply, self.reserve1, a1) {
                        None => Err(PoolError::Arithmetic),
                        Some(t) => if !fits(self.supply + t) || !fits(self.reserve1 + a1) || !fits(self.reserve2 + a2) {
                            Err(PoolError::Arithmetic)
                        } else {
                            Ok((
                                PoolModel {
                                    reserve1: self.reserve1 + a1,
                                    reserve2: self.reserve2 + a2,
                                    supply: self.supply + t,
                                    ..self
                                },
                                dm - a1,
                                dn - a2,
                                t,
                            ))
                        },
                },
            }
        }
    }

    /// Redeeming `t` ownership tokens of kind `id` for their share of both
    /// reserves, rounded down. Gives the new state and the two amounts paid out.
    pub open spec fn remove_liquidity(self, id: Seq<u8>, t: int) -> Result<(PoolModel, int, int), PoolError> {
        if id != self.tracking {
            Err(PoolError::Validation)
        } else if t > self.supply {
            Err(PoolError::InsufficientLiquidity)
        } else {
            match fixed_div(t, self.supply) {
                None => Err(PoolError::Arithmetic),
                Some(share) => match fixed_mul(self.reserve1, share) {
                    None => Err(PoolError::Arithmetic),
                    Some(w1) => match fixed_mul(self.reserve2, share) {
                        None => Err(PoolError::Arithmetic),
                        Some(w2) => if w1 > self.reserve1 || w2 > self.reserve2 {
                            Err(PoolError::InsufficientLiquidity)
                        } else {
                            Ok((
                                PoolModel {
                                    reserve1: self.reserve1 - w1,
                                    reserve2: self.reserve2 - w2,
                                    supply: self.supply - t,
                                    ..self
                                },
                                w1,
                                w2,
                            ))
                        },
                    },
                },
            }
        }
    }
}

/// Whether two holdings and a fee may start a pool.
pub open spec fn creation_allowed(a: Holding, b: Holding, fee: int, a_fungible: bool, b_fungible: bool) -> bool {
    &&& a.resource@ != b.resource@
    &&& a_fungible && b_fungible
    &&& a.amount@ != 0 && b.amount@ != 0
    &&& 0 <= fee <= HUNDRED
}

/// The pool that two holdings start: the tokens in canonical order, the
/// holdings as reserves, and a hundred ownership tokens outstanding.
pub open spec fn created(a: Holding, b: Holding, fee: int, tracking: Seq<u8>) -> PoolModel {
    let (first, second) = if id_lt(a.resource@, b.resource@) { (a, b) } else { (b, a) };
    PoolModel {
        token1: first.resource@,
        token2: second.resource@,
        tracking,
        reserve1: first.amount@,
        reserve2: second.amount@,
        supply: HUNDRED as int,
        fee,
    }
}

/// A constant-product pool of two tokens.
#[derive(Clone, Copy, Debug)]
pub struct Pool {
    token1: ResourceId,
    token2: ResourceId,
    tracking_token: ResourceId,
    reserve1: Dec,
    reserve2: Dec,
    tracking_supply: Dec,
    fee_to_pool: Dec,
}

impl View for Pool {
    type V = PoolModel;

    closed spec fn view(&self) -> PoolModel {
        PoolModel {
            token1: self.token1@,
            token2: self.token2@,
            tracking: self.tracking_token@,
            reserve1: self.reserve1@,
            reserve2: self.reserve2@,
            supply: self.tracking_supply@,
            fee: self.fee_to_pool@,
        }
    }
}

impl Pool {
    pub open spec fn wf(&self) -> bool {
        self@.valid()
    }

    /// Whether `address` is one of the pool's two tokens.
    pub fn belongs_to_pool(&self, address: &ResourceId) -> (r: bool)
        ensures
            r == self@.member(address@),
    {
        same_id(address, &self.token1) || same_id(address, &self.token2)
    }

    /// Fails unless `address` is one of the pool's tokens, with `NotPoolMember`
    /// and the label of the operation that asked.
    pub fn assert_belongs_to_pool(&self, address: &ResourceId, label: String) -> (r: Result<(), LabelledError>)
        ensures
            r is Ok <==> self@.member(address@),
            r matches Err(e) ==> e.error == PoolError::NotPoolMember && e.label@ == label@,
    {
        if self.belongs_to_pool(address) {
            Ok(())
        } else {
            Err(LabelledError { error: PoolError::NotPoolMember, label })
        }
    }

    /// The pool's two tokens, in canonical order.
    pub fn addresses(&self) -> (r: Vec<ResourceId>)
        ensures
            r@.len() == 2,
            r@[0]@ == self@.token1,
            r@[1]@ == self@.token2,
    {
        vec![self.token1, self.token2]
    }

    /// The identifier of the pool's ownership token.
    pub fn tracking_token_address(&self) -> (r: ResourceId)
        ensures
            r@ == self@.tracking,
    {
        self.tracking_token
    }

    /// The outstanding supply of the ownership token.
    pub fn tracking_supply(&self) -> (r: Dec)
        ensures
            r@ == self@.supply,
    {
        self.tracking_supply
    }

    /// The fee, in percent, taken from each swap's input.
    pub fn fee_to_pool(&self) -> (r: Dec)
        ensures
            r@ == self@.fee,
    {
        self.fee_to_pool
    }

    /// The reserve of `address`, which must be one of the pool's tokens.
    pub fn reserve(&self, address: &ResourceId) -> (r: Result<Dec, PoolError>)
        ensures
            r matches Ok(v) ==> self@.member(address@) && v@ == self@.reserve_of(address@),
            r is Err <==> !self@.member(address@),
            r matches Err(e) ==> e == PoolError::NotPoolMember,
    {
        if same_id(address, &self.token1) {
            Ok(self.reserve1)
        } else if same_id(address, &self.token2) {
            Ok(self.reserve2)
        } else {
            Err(PoolError::NotPoolMember)
        }
    }

    /// The pool's other token.
    pub fn other_resource_address(&self, resource_address: &ResourceId) -> (r: Result<ResourceId, PoolError>)
        ensures
            r matches Ok(o) ==> self@.member(resource_address@) && o@ == self@.other(resource_address@),
            r is Err <==> !self@.member(resource_address@),
            r matches Err(e) ==> e == PoolError::NotPoolMember,
    {
        if same_id(resource_address, &self.token1) {
            Ok(self.token2)
        } else if same_id(resource_address, &self.token2) {
            Ok(self.token1)
        } else {
            Err(PoolError::NotPoolMember)
        }
    }

    /// The constant product of the two reserves, in fixed point.
    pub fn k(&self) -> (r: Result<Dec, PoolError>)
        requires
            self.wf(),
        ensures
            r matches Ok(v) ==> fixed_mul(self@.reserve1, self@.reserve2) == Some(v@),
            r is Err <==> fixed_mul(self@.reserve1, self@.reserve2) is None,
            r matches Err(e) ==> e == PoolError::Arithmetic,
    {
        match decimal_mul(self.reserve1, self.reserve2) {
            Some(v) => Ok(v),
            None => Err(PoolError::Arithmetic),
        }
    }

    /// What `input_amount` of `input_resource_address` buys of the other token
    /// at the current reserves.
    pub fn calculate_output_amount(&self, input_resource_address: &ResourceId, input_amount: Dec) -> (r: Result<Dec, PoolError>)
        requires
            self.wf(),
            input_amount@ >= 0,
        ensures
            r matches Ok(v) ==> self@.output_quote(input_resource_address@, input_amount@) == Ok::<int, PoolError>(v@),
            r matches Err(e) ==> self@.output_quote(input_resource_address@, input_amount@) == Err::<int, PoolError>(e),
    {
        let x = self.reserve(input_resource_address)?;
        let other = self.other_resource_address(input_resource_address)?;
        let y = self.reserve(&other)?;
        match output_amount(x, y, self.fee_to_pool, input_amount) {
            Some(v) => Ok(v),
            None => Err(PoolError::Arithmetic),
        }
    }

    /// How much of the other token it takes to get `output_amount` of
    /// `output_resource_address` at the current reserves; `InsufficientLiquidity`
    /// when the pool holds no more than `output_amount`.
    pub fn calculate_input_amount(&self, output_resource_address: &ResourceId, output_amount: Dec) -> (r: Result<Dec, PoolError>)
        requires
            self.wf(),
            output_amount@ >= 0,
        ensures
            r matches Ok(v) ==> self@.input_quote(output_resource_address@, output_amount@) == Ok::<int, PoolError>(v@),
            r matches Err(e) ==> self@.input_quote(output_resource_address@, output_amount@) == Err::<int, PoolError>(e),
    {
        let y = self.reserve(output_resource_address)?;
        let other = self.other_resource_address(output_resource_address)?;
        let x = self.reserve(&other)?;
        if output_amount.attos >= y.attos {
            return Err(PoolError::InsufficientLiquidity);
        }
        match input_amount(x, y, self.fee_to_pool, output_amount) {
            Some(v) => Ok(v),
            None => Err(PoolError::Arithmetic),
        }
    }

    /// Adds a holding to the matching reserve.
    fn deposit(&mut self, bucket: Holding) -> (r: Result<(), PoolError>)
        requires
            old(self).wf(),
            bucket.wf(),
        ensures
            final(self).wf(),
            r is Ok ==> old(self)@.deposit(bucket.resource@, bucket.amount@) == Ok::<PoolModel, PoolError>(final(self)@),
            r matches Err(e) ==> old(self)@.deposit(bucket.resource@, bucket.amount@) == Err::<PoolModel, PoolError>(e)
                && final(self)@ == old(self)@,
    {
        if same_id(&bucket.resource, &self.token1) {
            if self.reserve1.attos > i128::MAX - bucket.amount.attos {
                return Err(PoolError::Arithmetic);
            }
            self.reserve1 = Dec { attos: self.reserve1.attos + bucket.amount.attos };
            Ok(())
        } else if same_id(&bucket.resource, &self.token2) {
            if self.reserve2.attos > i128::MAX - bucket.amount.attos {
                return Err(PoolError::Arithmetic);
            }
            self.reserve2 = Dec { attos: self.reserve2.attos + bucket.amount.attos };
            Ok(())
        } else {
            Err(PoolError::NotPoolMember)
        }
    }

    /// Takes `amount` out of the reserve of `resource_address`.
    fn withdraw(&mut self, resource_address: &ResourceId, amount: Dec) -> (r: Result<Holding, PoolError>)
        requires
            old(self).wf(),
            amount@ >= 0,
        ensures
            final(self).wf(),
            r matches Ok(h) ==> old(self)@.withdraw(resource_address@, amount@) == Ok::<PoolModel, PoolError>(final(self)@)
                && h.resource == *resource_address && h.amount == amount,
            r matches Err(e) ==> old(self)@.withdraw(resource_address@, amount@) == Err::<PoolModel, PoolError>(e)
                && final(self)@ == old(self)@,
    {
        if same_id(resource_address, &self.token1) {
            if amount.attos > self.reserve1.attos {
                return Err(PoolError::InsufficientLiquidity);
            }
            self.reserve1 = Dec { attos: self.reserve1.attos - amount.attos };
        } else if same_id(resource_address, &self.token2) {
            if amount.attos > self.reserve2.attos {
                return Err(PoolError::InsufficientLiquidity);
            }
            self.reserve2 = Dec { attos: self.reserve2.attos - amount.attos };
        } else {
            return Err(PoolError::NotPoolMember);
        }
        Ok(Holding { resource: *resource_address, amount })
    }

    /// Swaps a holding of one of the pool's tokens for the amount of the other
    /// that it buys at the current reserves.
    pub fn swap(&mut self, tokens: Holding) -> (r: Result<Holding, PoolError>)
        requires
            old(self).wf(),
            tokens.wf(),
        ensures
            final(self).wf(),
            r matches Ok(h) ==> old(self)@.swap(tokens.resource@, tokens.amount@) == Ok::<(PoolModel, int), PoolError>((final(self)@, h.amount@))
                && h.resource@ == old(self)@.other(tokens.resource@),
            r matches Err(e) ==> old(self)@.swap(tokens.resource@, tokens.amount@) == Err::<(PoolModel, int), PoolError>(e)
                && final(self)@ == old(self)@,
    {
        let output_amount = self.calculate_output_amount(&tokens.resource, tokens.amount)?;
        let other = self.other_resource_address(&tokens.resource)?;
        let saved = *self;
        let output_tokens = self.withdraw(&other, output_amount)?;
        match self.deposit(tokens) {
            Ok(()) => Ok(output_tokens),
            Err(e) => {
                *self = saved;
                Err(e)
            },
        }
    }

    /// Swaps a holding for the other token, refused with `Slippage` when the
    /// output would be less than `min_amount_out`.
    pub fn swap_exact_tokens_for_tokens(&mut self, tokens: Holding, min_amount_out: Dec) -> (r: Result<Holding, PoolError>)
        requires
            old(self).wf(),
            tokens.wf(),
        ensures
            final(self).wf(),
            r matches Ok(h) ==> old(self)@.swap_exact_input(tokens.resource@, tokens.amount@, min_amount_out@)
                == Ok::<(PoolModel, int), PoolError>((final(self)@, h.amount@)) && h.resource@ == old(self)@.other(tokens.resource@),
            r matches Err(e) ==> old(self)@.swap_exact_input(tokens.resource@, tokens.amount@, min_amount_out@)
                == Err::<(PoolModel, int), PoolError>(e) && final(self)@ == old(self)@,
    {
        let saved = *self;
        let output_tokens = self.swap(tokens)?;
        if output_tokens.amount.attos < min_amount_out.attos {
            *self = saved;
            return Err(PoolError::Slippage);
        }
        Ok(output_tokens)
    }

    /// Takes from a holding exactly what buys `output_amount` of the other
    /// token, and gives back that output and what is left of the holding.
    pub fn swap_tokens_for_exact_tokens(&mut self, tokens: Holding, output_amount: Dec) -> (r: Result<(Holding, Holding), PoolError>)
        requires
            old(self).wf(),
            tokens.wf(),
            output_amount@ >= 0,
        ensures
            final(self).wf(),
            r matches Ok((out, rest)) ==> old(self)@.swap_exact_output(tokens.resource@, tokens.amount@, output_amount@)
                == Ok::<(PoolModel, int), PoolError>((final(self)@, rest.amount@))
                && out.resource@ == old(self)@.other(tokens.resource@) && out.amount == output_amount
                && rest.resource == tokens.resource,
            r matches Err(e) ==> old(self)@.swap_exact_output(tokens.resource@, tokens.amount@, output_amount@)
                == Err::<(PoolModel, int), PoolError>(e) && final(self)@ == old(self)@,
    {
        let other = self.other_resource_address(&tokens.resource)?;
        let input_required = self.calculate_input_amount(&other, output_amount)?;
        if tokens.amount.attos < input_required.attos {
            return Err(PoolError::InsufficientInput);
        }
        let saved = *self;
        self.deposit(Holding { resource: tokens.resource, amount: input_required })?;
        match self.withdraw(&other, output_amount) {
            Ok(output_tokens) => {
                let rest = Holding { resource: tokens.resource, amount: Dec { attos: tokens.amount.attos - input_required.attos } };
                Ok((output_tokens, rest))
            },
            Err(e) => {
                *self = saved;
                Err(e)
            },
        }
    }

    /// Starts a pool from two holdings of distinct fungible tokens and a fee in
    /// `[0, 100]` percent, with `tracking_token` as its ownership token. Gives
    /// the pool and the hundred ownership tokens owed to its first provider.
    pub fn instantiate_pool(
        token1: Holding,
        token2: Holding,
        fee_to_pool: Dec,
        token1_fungible: bool,
        token2_fungible: bool,
        tracking_token: ResourceId,
    ) -> (r: Result<(Pool, Holding), PoolError>)
        requires
            token1.wf(),
            token2.wf(),
        ensures
            r is Ok <==> creation_allowed(token1, token2, fee_to_pool@, token1_fungible, token2_fungible),
            r matches Ok((pool, t)) ==> pool.wf() && pool@ == created(token1, token2, fee_to_pool@, tracking_token@)
                && t.resource == tracking_token && t.amount@ == HUNDRED,
            r matches Err(e) ==> e == PoolError::Validation,
    {
        if same_id(&token1.resource, &token2.resource) {
            return Err(PoolError::Validation);
        }
        if !token1_fungible || !token2_fungible {
            return Err(PoolError::Validation);
        }
        if token1.is_empty() || token2.is_empty() {
            return Err(PoolError::Validation);
        }
        if fee_to_pool.attos < 0 || fee_to_pool.attos > HUNDRED {
            return Err(PoolError::Validation);
        }
        let (bucket1, bucket2) = if id_less(&token1.resource, &token2.resource) {
            (token1, token2)
        } else {
            (token2, token1)
        };
        let pool = Pool {
            token1: bucket1.resource,
            token2: bucket2.resource,
            tracking_token,
            reserve1: bucket1.amount,
            reserve2: bucket2.amount,
            tracking_supply: Dec { attos: HUNDRED },
            fee_to_pool,
        };
        Ok((pool, Holding { resource: tracking_token, amount: Dec { attos: HUNDRED } }))
    }

    /// Adds liquidity from two holdings, one of each of the pool's tokens.
    /// Gives back what was not taken of each, in canonical token order, and the
    /// ownership tokens minted for what was.
    pub fn add_liquidity(&mut self, token1: Holding, token2: Holding) -> (r: Result<(Holding, Holding, Holding), PoolError>)
        requires
            old(self).wf(),
            token1.wf(),
            token2.wf(),
        ensures
            final(self).wf(),
            r matches Ok((rest1, rest2, t)) ==> old(self)@.add_liquidity(token1.resource@, token1.amount@, token2.resource@, token2.amount@)
                == Ok::<(PoolModel, int, int, int), PoolError>((final(self)@, rest1.amount@, rest2.amount@, t.amount@))
                && rest1.resource@ == old(self)@.token1 && rest2.resource@ == old(self)@.token2
                && t.resource@ == old(self)@.tracking,
            r matches Err(e) ==> old(self)@.add_liquidity(token1.resource@, token1.amount@, token2.resource@, token2.amount@)
                == Err::<(PoolModel, int, int, int), PoolError>(e) && final(self)@ == old(self)@,
    {
        if !self.belongs_to_pool(&token1.resource) || !self.belongs_to_pool(&token2.resource) {
            return Err(PoolError::NotPoolMember);
        }
        if token1.is_empty() || token2.is_empty() || same_id(&token1.resource, &token2.resource) {
            return Err(PoolError::Validation);
        }
        let (bucket1, bucket2) = if same_id(&token1.resource, &self.token1) {
            (token1, token2)
        } else {
            (token2, token1)
        };
        let dm = bucket1.amount;
        let dn = bucket2.amount;
        let m = self.reserve1;
        let n = self.reserve2;
        let (amount1, amount2) = match deposit_amounts(m, n, dm, dn) {
            Some(p) => p,
            None => return Err(PoolError::Arithmetic),
        };
        let minted = match tracking_amount(self.tracking_supply, m, amount1) {
            Some(t) => t,
            None => return Err(PoolError::Arithmetic),
        };
        if minted.attos > i128::MAX - self.tracking_supply.attos {
            return Err(PoolError::Arithmetic);
        }
        let saved = *self;
        self.deposit(Holding { resource: bucket1.resource, amount: amount1 })?;
        if let Err(e) = self.deposit(Holding { resource: bucket2.resource, amount: amount2 }) {
            *self = saved;
            return Err(e);
        }
        self.tracking_supply = Dec { attos: self.tracking_supply.attos + minted.attos };
        let rest1 = Holding { resource: bucket1.resource, amount: Dec { attos: dm.attos - amount1.attos } };
        let rest2 = Holding { resource: bucket2.resource, amount: Dec { attos: dn.attos - amount2.attos } };
        Ok((rest1, rest2, Holding { resource: self.tracking_token, amount: minted }))
    }

    /// Redeems ownership tokens for their share of both reserves, rounded
    /// down, in canonical token order; the tokens are burnt.
    pub fn remove_liquidity(&mut self, tracking_tokens: Holding) -> (r: Result<(Holding, Holding), PoolError>)
        requires
            old(self).wf(),
            tracking_tokens.wf(),
        ensures
            final(self).wf(),
            r matches Ok((h1, h2)) ==> old(self)@.remove_liquidity(tracking_tokens.resource@, tracking_tokens.amount@)
                == Ok::<(PoolModel, int, int), PoolError>((final(self)@, h1.amount@, h2.amount@))
                && h1.resource@ == old(self)@.token1 && h2.resource@ == old(self)@.token2,
            r matches Err(e) ==> old(self)@.remove_liquidity(tracking_tokens.resource@, tracking_tokens.amount@)
                == Err::<(PoolModel, int, int), PoolError>(e) && final(self)@ == old(self)@,
    {
        if !same_id(&tracking_tokens.resource, &self.tracking_token) {
            return Err(PoolError::Validation);
        }
        if tracking_tokens.amount.attos > self.tracking_supply.attos {
            return Err(PoolError::InsufficientLiquidity);
        }
        let percentage = match decimal_div(tracking_tokens.amount, self.tracking_supply) {
            Some(p) => p,
            None => return Err(PoolError::Arithmetic),
        };
        let (w1, w2) = match (decimal_mul(self.reserve1, percentage), decimal_mul(self.reserve2, percentage)) {
            (Some(w1), Some(w2)) => (w1, w2),
            _ => return Err(PoolError::Arithmetic),
        };
        let saved = *self;
        let first = self.token1;
        let second = self.token2;
        let bucket1 = self.withdraw(&first, w1)?;
        let bucket2 = match self.withdraw(&second, w2) {
            Ok(b) => b,
            Err(e) => {
                *self = saved;
                return Err(e);
            },
        };
        self.tracking_supply = Dec { attos: self.tracking_supply.attos - tracking_tokens.amount.attos };
        Ok((bucket1, bucket2))
    }
}

} // verus!
