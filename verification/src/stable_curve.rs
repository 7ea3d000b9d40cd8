//! The stable-swap invariant for a pool of two tokens, solved by Newton's
//! method in checked 256-bit arithmetic.
use vstd::prelude::*;
use vstd::arithmetic::power::pow;
use crate::calculator::{CurveCalculator, SwapWithoutFeesResult, TradeDirection};
use crate::error::CurveError;
use crate::precise_number::{
    lemma_ceiling_to_whole, lemma_product_of_whole_numbers, lemma_quotient_by_whole_number,
    scaled_ceiling, scaled_product, scaled_quotient, scaled_to_whole, PreciseNumber, HALF, ONE,
};
use crate::wide::{div_ceil, exact, lemma_div_ceil_is_least, outcome, two_256, Checked, U256};

verus! {

/// The number of tokens in a pool.
pub const N_COINS: u8 = 2;

/// The number of tokens in a pool, squared.
pub const N_COINS_SQUARED: u8 = 4;

/// The most steps that a solver takes.
pub const MAX_ITERATIONS: u8 = 32;

/// Whether two estimates differ by at most one, the finest an integer
/// iteration can settle.
pub open spec fn close(a: nat, b: nat) -> bool {
    a <= b + 1 && b <= a + 1
}

/// The estimate reached from `guess` in at most `steps` steps of `step`: the
/// first one that is close to the estimate before it, or the last one where
/// none is. A step that fails fails the whole; running out of steps does not:
/// whether the estimates settled is what `newton_settles` tells.
pub open spec fn newton(step: spec_fn(nat) -> Checked, guess: nat, steps: nat) -> Checked
    decreases steps,
{
    if steps == 0 {
        Checked::Value(guess)
    } else {
        match step(guess) {
            Checked::Failure(e) => Checked::Failure(e),
            Checked::Value(next) => if close(next, guess) {
                Checked::Value(next)
            } else {
                newton(step, next, (steps - 1) as nat)
            },
        }
    }
}

/// `D_p = D^3 / (2a * 2b)`, taken as `D * D / 2a * D / 2b` with each quotient
/// rounded down.
pub open spec fn d_product(d: nat, amount_a: nat, amount_b: nat) -> Checked {
    exact(d).times(exact(d)).over(exact(amount_a * 2)).times(exact(d)).over(exact(amount_b * 2))
}

/// One step for the invariant, given `D_p`:
/// `(leverage * S + D_p * 2) * D / ((leverage - 1) * D + D_p * 3)`.
pub open spec fn d_step(d: nat, leverage: nat, sum_x: nat, d_product: nat) -> Checked {
    exact(leverage).times(exact(sum_x)).plus(exact(d_product).times(exact(2))).times(
        exact(d),
    ).over(
        exact(d).times(exact(leverage).minus(exact(1))).plus(exact(d_product).times(exact(3))),
    )
}

/// One step for the invariant of reserves `amount_a` and `amount_b` from the
/// estimate `d`.
pub open spec fn d_next(leverage: nat, amount_a: nat, amount_b: nat, d: nat) -> Checked {
    match d_product(d, amount_a, amount_b) {
        Checked::Failure(e) => Checked::Failure(e),
        Checked::Value(p) => d_step(d, leverage, amount_a + amount_b, p),
    }
}

/// The invariant `D` of a pool with reserves `amount_a` and `amount_b`: zero
/// for an empty pool, else the estimate that Newton's method reaches from the
/// sum of the reserves, held to 128 bits.
pub open spec fn invariant_d(leverage: nat, amount_a: nat, amount_b: nat) -> Result<
    u128,
    CurveError,
> {
    if amount_a + amount_b > u128::MAX {
        Err(CurveError::Overflow)
    } else if amount_a + amount_b == 0 {
        Ok(0u128)
    } else {
        newton(
            |d: nat| d_next(leverage, amount_a, amount_b, d),
            amount_a + amount_b,
            MAX_ITERATIONS as nat,
        ).narrowed()
    }
}

/// The invariant of an empty pool is zero, whatever the leverage.
pub proof fn lemma_invariant_of_empty_pool(leverage: nat)
    ensures
        invariant_d(leverage, 0, 0) == Ok::<u128, CurveError>(0u128),
{
}

/// The invariant of a pool with equal reserves `r` is their sum `2 * r`, at
/// any leverage of at least one. The solver settles on it in its first step,
/// and fails only by overflow: where `2 * r` leaves 128 bits, or the largest
/// number that the step forms, `(leverage + 2) * (2 * r)^2`, leaves 256 bits.
pub proof fn lemma_invariant_of_equal_reserves(leverage: u64, r: u128)
    requires
        leverage >= 1,
    ensures
        invariant_d(leverage as nat, r as nat, r as nat) == if 2 * r > u128::MAX || (leverage + 2)
            * (2 * r) * (2 * r) >= two_256() {
            Err::<u128, CurveError>(CurveError::Overflow)
        } else {
            Ok::<u128, CurveError>((2 * r) as u128)
        },
{
    if 0 < r && 2 * r <= u128::MAX {
        let l = leverage as nat;
        let d = (2 * r) as nat;
        let step = |d: nat| d_next(l, r as nat, r as nat, d);
        assert(d * d < two_256()) by (nonlinear_arith)
            requires
                d <= u128::MAX,
                two_256()
                    == 0x1_0000_0000_0000_0000_0000_0000_0000_0000_0000_0000_0000_0000_0000_0000_0000_0000nat,
        ;
        assert((d * d) / d == d) by (nonlinear_arith)
            requires
                d > 0,
        ;
        assert(d_product(d, r as nat, r as nat) == Checked::Value(d));
        let top = (l + 2) * d;
        assert(l * d + d * 2 == top) by (nonlinear_arith)
            requires
                top == (l + 2) * d,
        ;
        assert(d * ((l - 1) as nat) + d * 3 == top) by (nonlinear_arith)
            requires
                top == (l + 2) * d,
                l >= 1,
        ;
        assert(0 < top < two_256()) by (nonlinear_arith)
            requires
                top == (l + 2) * d,
                0 < d <= u128::MAX,
                l <= u64::MAX,
                two_256()
                    == 0x1_0000_0000_0000_0000_0000_0000_0000_0000_0000_0000_0000_0000_0000_0000_0000_0000nat,
        ;
        assert(l * d <= top && d * ((l - 1) as nat) <= top && d * 2 <= top && d * 3 <= top)
            by (nonlinear_arith)
            requires
                top == (l + 2) * d,
                l >= 1,
        ;
        assert((top * d) / top == d) by (nonlinear_arith)
            requires
                top > 0,
        ;
        assert(top * d == (leverage + 2) * (2 * r) * (2 * r));
        assert(d_step(d, l, d, d) == exact(top * d).over(Checked::Value(top)));
        assert(step(d) == d_next(l, r as nat, r as nat, d));
        assert(close(d, d));
        assert(newton(step, d, MAX_ITERATIONS as nat) == step(d));
    }
}

/// Takes one step for the invariant:
/// `d = (leverage * sum_x + d_product * n_coins) * initial_d / ((leverage - 1) * initial_d + (n_coins + 1) * d_product)`.
pub fn calculate_step(initial_d: &U256, leverage: u64, sum_x: u128, d_product: &U256) -> (r: Result<
    U256,
    CurveError,
>)
    ensures
        outcome(r) == d_step(initial_d@, leverage as nat, sum_x as nat, d_product@),
{
    proof {
        initial_d.lemma_bounded();
        d_product.lemma_bounded();
    }
    let leverage_mul = U256::from_u64(leverage).checked_mul(U256::from_u128(sum_x))?;
    let d_p_mul = d_product.checked_mul_small(N_COINS)?;
    let l_val = leverage_mul.checked_add(d_p_mul)?.checked_mul(*initial_d)?;
    let leverage_less_one: u64 = match leverage.checked_sub(1) {
        Some(v) => v,
        None => {
            return Err(CurveError::Overflow);
        },
    };
    let leverage_sub = initial_d.checked_mul(U256::from_u64(leverage_less_one))?;
    let n_coins_sum = d_product.checked_mul_small(N_COINS + 1)?;
    let r_val = leverage_sub.checked_add(n_coins_sum)?;
    l_val.checked_div(r_val)
}

/// Computes the stable-swap invariant `D` of a pool, the solution of
/// `A * sum(x_i) * n**n + D = A * D * n**n + D**(n+1) / (n**n * prod(x_i))`.
pub fn compute_d(leverage: u64, amount_a: u128, amount_b: u128) -> (r: Result<u128, CurveError>)
    ensures
        r == invariant_d(leverage as nat, amount_a as nat, amount_b as nat),
        amount_a == 0 && amount_b == 0 ==> r == Ok::<u128, CurveError>(0u128),
{
    let amount_a_times_coins = U256::from_u128(amount_a).checked_mul_small(N_COINS)?;
    let amount_b_times_coins = U256::from_u128(amount_b).checked_mul_small(N_COINS)?;
    let sum_x: u128 = match amount_a.checked_add(amount_b) {
        Some(v) => v,
        None => {
            return Err(CurveError::Overflow);
        },
    };
    if sum_x == 0 {
        return Ok(0);
    }
    let ghost step = |d: nat| d_next(leverage as nat, amount_a as nat, amount_b as nat, d);
    let mut d = U256::from_u128(sum_x);
    let mut i: u8 = 0;
    while i < MAX_ITERATIONS
        invariant
            i <= MAX_ITERATIONS,
            amount_a_times_coins@ == amount_a * 2,
            amount_b_times_coins@ == amount_b * 2,
            sum_x == amount_a + amount_b,
            sum_x != 0,
            step == |d: nat| d_next(leverage as nat, amount_a as nat, amount_b as nat, d),
            newton(step, d@, (MAX_ITERATIONS - i) as nat) == newton(
                step,
                sum_x as nat,
                MAX_ITERATIONS as nat,
            ),
        decreases MAX_ITERATIONS - i,
    {
        proof {
            d.lemma_bounded();
            assert(step(d@) == d_next(leverage as nat, amount_a as nat, amount_b as nat, d@));
        }
        let d_product = d.checked_mul(d)?.checked_div(amount_a_times_coins)?.checked_mul(
            d,
        )?.checked_div(amount_b_times_coins)?;
        let d_previous = d;
        d = calculate_step(&d, leverage, sum_x, &d_product)?;
        if d.within_one(&d_previous) {
            return d.to_u128();
        }
        i = i + 1;
    }
    d.to_u128()
}

/// The right side `c = D^3 / (4 * x * leverage)` of `y^2 + b * y = c`, where
/// `x` is the new source reserve.
pub open spec fn destination_c(leverage: nat, new_source_amount: nat, d: nat) -> Checked {
    exact(d).to_the(3).over(exact(new_source_amount * 4).times(exact(leverage)))
}

/// The coefficient `b = x + D / leverage` of `y^2 + b * y = c`.
pub open spec fn destination_b(leverage: nat, new_source_amount: nat, d: nat) -> Checked {
    exact(new_source_amount).plus(exact(d).over(exact(leverage)))
}

/// One step for the new destination reserve: `(y^2 + c) / (2 * y + b - D)`.
pub open spec fn y_next(c: nat, b: nat, d: nat, y: nat) -> Checked {
    exact(y).to_the(2).plus(exact(c)).over(exact(y * 2).plus(exact(b)).minus(exact(d)))
}

/// The destination reserve that keeps the invariant `d` once the source
/// reserve is `new_source_amount`: the estimate that Newton's method reaches
/// from `d`, held to 128 bits.
pub open spec fn new_destination_amount(leverage: nat, new_source_amount: nat, d: nat) -> Result<
    u128,
    CurveError,
> {
    match destination_c(leverage, new_source_amount, d) {
        Checked::Failure(e) => Err(e),
        Checked::Value(c) => match destination_b(leverage, new_source_amount, d) {
            Checked::Failure(e) => Err(e),
            Checked::Value(b) => newton(
                |y: nat| y_next(c, b, d, y),
                d,
                MAX_ITERATIONS as nat,
            ).narrowed(),
        },
    }
}

/// The third power is the product of three factors.
proof fn lemma_cube(d: int)
    ensures
        pow(d, 3) == d * (d * d),
        pow(d, 3) == d * d * d,
        d >= 0 ==> pow(d, 3) >= 0,
{
    reveal_with_fuel(pow, 4);
    assert(pow(d, 3) == d * (d * (d * 1)));
    assert(d * (d * d) == d * d * d) by (nonlinear_arith);
    assert(d >= 0 ==> d * (d * d) >= 0) by (nonlinear_arith);
}

/// What holds of every estimate that a step gives holds of what the solver
/// returns, once it takes a step.
pub proof fn lemma_newton_result(
    step: spec_fn(nat) -> Checked,
    guess: nat,
    steps: nat,
    holds: spec_fn(nat) -> bool,
)
    requires
        steps >= 1,
        newton(step, guess, steps) is Value,
        forall|g: nat| (#[trigger] step(g)) is Value ==> holds(step(g)->Value_0),
    ensures
        holds(newton(step, guess, steps)->Value_0),
    decreases steps,
{
    let next = step(guess)->Value_0;
    assert(step(guess) is Value);
    if !close(next, guess) {
        if steps > 1 {
            lemma_newton_result(step, next, (steps - 1) as nat, holds);
        } else {
            assert(newton(step, next, 0) == Checked::Value(next));
        }
    }
}

/// Whether `y + 1` lies above the curve `y^2 + (b - d) * y = c`: a reserve `y`
/// of which this holds is less than one below the curve's root.
pub open spec fn above_curve(c: nat, b: nat, d: nat, y: nat) -> bool {
    (y + 1) * (y + 1) + (b - d) * (y + 1) > c
}

/// Every estimate that a step for the destination reserve gives is less than
/// one below the curve.
pub proof fn lemma_y_next_above_curve(c: nat, b: nat, d: nat, y: nat)
    requires
        y_next(c, b, d, y) is Value,
    ensures
        above_curve(c, b, d, y_next(c, b, d, y)->Value_0),
{
    let v = y_next(c, b, d, y)->Value_0 as int;
    let m = 2 * y + b - d;
    let n = pow(y as int, 2) + c;
    assert(pow(y as int, 2) == y * y) by {
        reveal_with_fuel(pow, 3);
    }
    assert(exact(y * 2).plus(exact(b)).minus(exact(d)) == Checked::Value(m as nat));
    assert(m > 0 && v == n / m);
    vstd::arithmetic::div_mod::lemma_fundamental_div_mod(n, m);
    vstd::arithmetic::div_mod::lemma_mod_bound(n, m);
    let t = v + 1;
    assert(m * t > n) by (nonlinear_arith)
        requires
            n == m * (n / m) + n % m,
            n % m < m,
            t == n / m + 1,
    ;
    assert(t * t + (b - d) * t - c > 0) by (nonlinear_arith)
        requires
            m * t > n,
            n == y * y + c,
            m == 2 * y + b - d,
    ;
}

/// The destination reserve that the solver returns is less than one below
/// the curve `y^2 + (b - D) * y = c` that it solves: a swap pays out no more
/// than the curve allows, rounded up.
pub proof fn lemma_new_destination_above_curve(leverage: nat, new_source_amount: nat, d: nat)
    requires
        new_destination_amount(leverage, new_source_amount, d) is Ok,
    ensures
        above_curve(
            destination_c(leverage, new_source_amount, d)->Value_0,
            destination_b(leverage, new_source_amount, d)->Value_0,
            d,
            new_destination_amount(leverage, new_source_amount, d)->Ok_0 as nat,
        ),
{
    let c = destination_c(leverage, new_source_amount, d)->Value_0;
    let b = destination_b(leverage, new_source_amount, d)->Value_0;
    let step = |y: nat| y_next(c, b, d, y);
    let holds = |y: nat| above_curve(c, b, d, y);
    assert forall|g: nat| (#[trigger] step(g)) is Value implies holds(step(g)->Value_0) by {
        lemma_y_next_above_curve(c, b, d, g);
    }
    lemma_newton_result(step, d, MAX_ITERATIONS as nat, holds);
}

/// Whether the solver settles: whether, within `steps` steps from `guess`,
/// some estimate is close to the one before it.
pub open spec fn newton_settles(step: spec_fn(nat) -> Checked, guess: nat, steps: nat) -> bool
    decreases steps,
{
    if steps == 0 {
        false
    } else {
        match step(guess) {
            Checked::Failure(_) => false,
            Checked::Value(next) => close(next, guess) || newton_settles(
                step,
                next,
                (steps - 1) as nat,
            ),
        }
    }
}

/// Where the solver settles, it returns an estimate, and what holds of every
/// estimate that is close to the one it was stepped from holds of it.
pub proof fn lemma_newton_settled_result(
    step: spec_fn(nat) -> Checked,
    guess: nat,
    steps: nat,
    holds: spec_fn(nat) -> bool,
)
    requires
        newton_settles(step, guess, steps),
        forall|g: nat|
            (#[trigger] step(g)) is Value && close(step(g)->Value_0, g) ==> holds(
                step(g)->Value_0,
            ),
    ensures
        newton(step, guess, steps) is Value,
        holds(newton(step, guess, steps)->Value_0),
    decreases steps,
{
    let next = step(guess)->Value_0;
    assert(step(guess) is Value);
    if !close(next, guess) {
        lemma_newton_settled_result(step, next, (steps - 1) as nat, holds);
    }
}

/// Whether `y` lies at most one above the curve `y^2 + (b - d) * y = c`.
pub open spec fn near_curve(c: nat, b: nat, d: nat, y: nat) -> bool {
    y * y + (b - d) * y <= c + 1
}

/// An estimate for the destination reserve that is close to the one it was
/// stepped from lies at most one above the curve.
pub proof fn lemma_y_next_near_curve(c: nat, b: nat, d: nat, y: nat)
    requires
        y_next(c, b, d, y) is Value,
        close(y_next(c, b, d, y)->Value_0, y),
    ensures
        near_curve(c, b, d, y_next(c, b, d, y)->Value_0),
{
    let v = y_next(c, b, d, y)->Value_0 as int;
    let m = 2 * y + b - d;
    let n = pow(y as int, 2) + c;
    assert(pow(y as int, 2) == y * y) by {
        reveal_with_fuel(pow, 3);
    }
    assert(exact(y * 2).plus(exact(b)).minus(exact(d)) == Checked::Value(m as nat));
    assert(m > 0 && v == n / m);
    vstd::arithmetic::div_mod::lemma_fundamental_div_mod(n, m);
    vstd::arithmetic::div_mod::lemma_mod_bound(n, m);
    assert(m * v <= n) by (nonlinear_arith)
        requires
            n == m * (n / m) + n % m,
            0 <= n % m,
            v == n / m,
    ;
    assert(v * v + (b - d) * v - c <= (v - y) * (v - y)) by (nonlinear_arith)
        requires
            m * v <= n,
            n == y * y + c,
            m == 2 * y + b - d,
    ;
    assert((v - y) * (v - y) <= 1) by (nonlinear_arith)
        requires
            -1 <= v - y <= 1,
    ;
}

/// Whether the solver for the destination reserve settles.
pub open spec fn new_destination_settles(leverage: nat, new_source_amount: nat, d: nat) -> bool {
    match (
        destination_c(leverage, new_source_amount, d),
        destination_b(leverage, new_source_amount, d),
    ) {
        (Checked::Value(c), Checked::Value(b)) => newton_settles(
            |y: nat| y_next(c, b, d, y),
            d,
            MAX_ITERATIONS as nat,
        ),
        _ => false,
    }
}

/// Where the solver settles, the destination reserve that it returns lies at
/// most one above the curve that it solves: a swap pays out no less than the
/// curve allows, up to the rounding.
pub proof fn lemma_new_destination_near_curve(leverage: nat, new_source_amount: nat, d: nat)
    requires
        new_destination_settles(leverage, new_source_amount, d),
        new_destination_amount(leverage, new_source_amount, d) is Ok,
    ensures
        near_curve(
            destination_c(leverage, new_source_amount, d)->Value_0,
            destination_b(leverage, new_source_amount, d)->Value_0,
            d,
            new_destination_amount(leverage, new_source_amount, d)->Ok_0 as nat,
        ),
{
    let c = destination_c(leverage, new_source_amount, d)->Value_0;
    let b = destination_b(leverage, new_source_amount, d)->Value_0;
    let step = |y: nat| y_next(c, b, d, y);
    let holds = |y: nat| near_curve(c, b, d, y);
    assert forall|g: nat| (#[trigger] step(g)) is Value && close(step(g)->Value_0, g) implies holds(
        step(g)->Value_0,
    ) by {
        lemma_y_next_near_curve(c, b, d, g);
    }
    lemma_newton_settled_result(step, d, MAX_ITERATIONS as nat, holds);
}

/// What the solver for the destination reserve returns together with
/// whether it settled.
pub open spec fn solved_destination_amount(leverage: nat, new_source_amount: nat, d: nat) -> Result<
    (u128, bool),
    CurveError,
> {
    match new_destination_amount(leverage, new_source_amount, d) {
        Err(e) => Err(e),
        Ok(y) => Ok((y, new_destination_settles(leverage, new_source_amount, d))),
    }
}

/// Computes the new destination reserve `y` for the new source reserve `x`,
/// the solution of `y**2 + y * (x + D / leverage - D) = D**3 / (4 * x * leverage)`,
/// and tells whether the solver settled: whether the estimate returned is
/// close to the one before it, or only the last of its steps.
pub fn solve_new_destination_amount(leverage: u64, new_source_amount: u128, d_val: u128) -> (r:
    Result<(u128, bool), CurveError>)
    ensures
        r == solved_destination_amount(leverage as nat, new_source_amount as nat, d_val as nat),
{
    let wide_leverage = U256::from_u64(leverage);
    let x = U256::from_u128(new_source_amount);
    let d = U256::from_u128(d_val);
    let c = d.checked_pow(N_COINS + 1)?.checked_div(
        x.checked_mul_small(N_COINS_SQUARED)?.checked_mul(wide_leverage)?,
    )?;
    let b = x.checked_add(d.checked_div(wide_leverage)?)?;
    let ghost step = |y: nat| y_next(c@, b@, d@, y);
    let mut y = d;
    let mut i: u8 = 0;
    while i < MAX_ITERATIONS
        invariant
            i <= MAX_ITERATIONS,
            d@ == d_val,
            destination_c(leverage as nat, new_source_amount as nat, d_val as nat)
                == Checked::Value(c@),
            destination_b(leverage as nat, new_source_amount as nat, d_val as nat)
                == Checked::Value(b@),
            step == |y: nat| y_next(c@, b@, d@, y),
            newton(step, y@, (MAX_ITERATIONS - i) as nat) == newton(
                step,
                d@,
                MAX_ITERATIONS as nat,
            ),
            newton_settles(step, y@, (MAX_ITERATIONS - i) as nat) == newton_settles(
                step,
                d@,
                MAX_ITERATIONS as nat,
            ),
        decreases MAX_ITERATIONS - i,
    {
        proof {
            y.lemma_bounded();
            c.lemma_bounded();
            b.lemma_bounded();
            assert(step(y@) == y_next(c@, b@, d@, y@));
        }
        let y_prev = y;
        y = y.checked_pow(2)?.checked_add(c)?.checked_div(
            y.checked_mul_small(2)?.checked_add(b)?.checked_sub(d)?,
        )?;
        if y.within_one(&y_prev) {
            return Ok((y.to_u128()?, true));
        }
        i = i + 1;
    }
    Ok((y.to_u128()?, false))
}

/// Computes the new destination reserve `y` for the new source reserve `x`,
/// the solution of `y**2 + y * (x + D / leverage - D) = D**3 / (4 * x * leverage)`.
pub fn compute_new_destination_amount(leverage: u64, new_source_amount: u128, d_val: u128) -> (r:
    Result<u128, CurveError>)
    ensures
        r == new_destination_amount(leverage as nat, new_source_amount as nat, d_val as nat),
{
    match solve_new_destination_amount(leverage, new_source_amount, d_val) {
        Ok((y, _)) => Ok(y),
        Err(e) => Err(e),
    }
}

/// The curve for tokens of near-equal worth.
#[derive(Debug, Clone, Copy, PartialEq, Eq, Structural)]
pub struct StableCurve {
    /// Amplifier constant.
    pub amp: u64,
}

impl Default for StableCurve {
    fn default() -> (r: StableCurve)
        ensures
            r.amp == 0,
    {
        StableCurve { amp: 0 }
    }
}

/// What a swap gives on the stable curve with amplifier `amp`: the whole
/// `source_amount` is taken, and the destination reserve falls to the amount
/// that keeps the invariant of the old reserves. A destination reserve that
/// would have to grow is an invalid amount.
pub open spec fn stable_swap(
    amp: u64,
    source_amount: u128,
    swap_source_amount: u128,
    swap_destination_amount: u128,
) -> Result<SwapWithoutFeesResult, CurveError> {
    let leverage = (amp * N_COINS_SQUARED) as nat;
    if leverage > u64::MAX || swap_source_amount + source_amount > u128::MAX {
        Err(CurveError::Overflow)
    } else {
        match invariant_d(leverage, swap_source_amount as nat, swap_destination_amount as nat) {
            Err(e) => Err(e),
            Ok(d) => match new_destination_amount(
                leverage,
                (swap_source_amount + source_amount) as nat,
                d as nat,
            ) {
                Err(e) => Err(e),
                Ok(y) => if y > swap_destination_amount {
                    Err(CurveError::InvalidAmount)
                } else {
                    Ok(
                        SwapWithoutFeesResult {
                            source_amount_swapped: source_amount,
                            destination_amount_swapped: (swap_destination_amount - y) as u128,
                        },
                    )
                },
            },
        }
    }
}

/// The pool tokens burned when the invariant falls from `d0` to `d1`: the
/// share `(d0 - d1) * pool_supply / d0` of the supply, rounded up to a whole
/// token, so that a withdrawal is never paid for with too little. An
/// invariant that rose is an overflow, and one of zero divides by zero.
pub open spec fn burned_share(d0: u128, d1: u128, pool_supply: u128) -> Result<u128, CurveError> {
    if d0 < d1 {
        Err(CurveError::Overflow)
    } else if d0 == 0 {
        Err(CurveError::DivisionByZero)
    } else {
        Ok(div_ceil((d0 - d1) * pool_supply, d0 as int) as u128)
    }
}

/// The pool tokens burned are the least number of which `d0` times reaches
/// `(d0 - d1) * pool_supply`: enough, and with one less not enough. They are
/// never more than the supply.
pub proof fn lemma_burned_share(d0: u128, d1: u128, pool_supply: u128)
    requires
        burned_share(d0, d1, pool_supply) is Ok,
    ensures
        ({
            let n = burned_share(d0, d1, pool_supply)->Ok_0;
            &&& n * d0 >= (d0 - d1) * pool_supply
            &&& n == 0 || (n - 1) * d0 < (d0 - d1) * pool_supply
            &&& n <= pool_supply
            &&& n == div_ceil((d0 - d1) * pool_supply, d0 as int)
        }),
{
    let d = d0 as int;
    let n = (d0 - d1) * pool_supply;
    let c = div_ceil(n, d);
    assert(0 <= n <= pool_supply * d) by (nonlinear_arith)
        requires
            n == (d0 - d1) * pool_supply,
            0 <= d0 - d1 <= d,
            0 <= pool_supply,
    ;
    lemma_div_ceil_is_least(n, d, pool_supply as int);
    lemma_div_ceil_is_least(n, d, c - 1);
}

/// What the precise numbers give for the share
/// `(d0 - d1) * pool_supply / d0`: the numbers are made precise, subtracted,
/// multiplied and divided, and the quotient is rounded up to a whole number
/// and held to 128 bits.
pub open spec fn share_in_precise_numbers(d0: u128, d1: u128, pool_supply: u128) -> Result<
    u128,
    CurveError,
> {
    if d0 < d1 {
        Err(CurveError::Overflow)
    } else {
        match scaled_product(((d0 - d1) * ONE) as nat, (pool_supply * ONE) as nat) {
            Checked::Failure(e) => Err(e),
            Checked::Value(product) => match scaled_quotient(product, (d0 * ONE) as nat) {
                Checked::Failure(e) => Err(e),
                Checked::Value(quotient) => match scaled_ceiling(quotient) {
                    Checked::Failure(e) => Err(e),
                    Checked::Value(whole) => scaled_to_whole(whole).narrowed(),
                },
            },
        }
    }
}

/// The share that the precise numbers give where nothing leaves 256 bits: the
/// share rounded down, and one more where what the rounding dropped is at
/// least `1 / ONE` of a token.
pub open spec fn share_to_twelve_places(d0: nat, d1: nat, pool_supply: nat) -> nat {
    let n = ((d0 - d1) * pool_supply) as nat;
    if (n % d0) * ONE >= d0 {
        n / d0 + 1
    } else {
        n / d0
    }
}

/// Where the invariant falls and the share's product fits in 256 bits with
/// twenty-four more decimal places, the precise numbers round once. What
/// they give is the share rounded up, but for a remainder below `1 / ONE` of
/// a token, which they drop: there they fall one short of the pool tokens to
/// burn.
pub proof fn lemma_share_in_precise_numbers(d0: u128, d1: u128, pool_supply: u128)
    requires
        0 < d0,
        d1 <= d0,
        (d0 - d1) * pool_supply * ONE * ONE + HALF < two_256(),
    ensures
        share_to_twelve_places(d0 as nat, d1 as nat, pool_supply as nat) <= pool_supply,
        share_in_precise_numbers(d0, d1, pool_supply) == Ok::<u128, CurveError>(
            share_to_twelve_places(d0 as nat, d1 as nat, pool_supply as nat) as u128,
        ),
{
    let one = ONE as int;
    let d = d0 as int;
    let fall = (d0 - d1) as nat;
    let n = (fall * pool_supply) as int;
    assert(0 <= n <= d * pool_supply) by (nonlinear_arith)
        requires
            n == fall * pool_supply,
            0 <= fall <= d,
    ;
    let value = (n * one) as nat;
    assert(fall * pool_supply * ONE * ONE == value * one) by (nonlinear_arith)
        requires
            value == fall * pool_supply * one,
            one == ONE,
    ;
    lemma_product_of_whole_numbers(fall, pool_supply as nat);
    lemma_quotient_by_whole_number(value, d0 as nat);
    let quotient = value / (d0 as nat);
    // the quotient of the value, by the quotient and the remainder of the share
    let k = n / d;
    let r = n % d;
    vstd::arithmetic::div_mod::lemma_fundamental_div_mod(n, d);
    vstd::arithmetic::div_mod::lemma_mod_bound(n, d);
    vstd::arithmetic::div_mod::lemma_div_pos_is_pos(n, d);
    let z = (r * one) / d;
    vstd::arithmetic::div_mod::lemma_fundamental_div_mod(r * one, d);
    vstd::arithmetic::div_mod::lemma_mod_bound(r * one, d);
    assert(0 <= z < one && (z >= 1 <==> r * one >= d)) by (nonlinear_arith)
        requires
            r * one == d * z + (r * one) % d,
            0 <= (r * one) % d < d,
            0 <= r < d,
            one > 0,
    ;
    assert(n * one == (k * one + z) * d + (r * one) % d) by (nonlinear_arith)
        requires
            n == d * k + r,
            r * one == d * z + (r * one) % d,
    ;
    vstd::arithmetic::div_mod::lemma_fundamental_div_mod_converse(
        n * one,
        d,
        k * one + z,
        (r * one) % d,
    );
    assert(quotient == k * one + z);
    assert(quotient <= value);
    if n > 0 {
        assert(value + 2 * one <= value * one) by (nonlinear_arith)
            requires
                value == n * one,
                n >= 1,
                one == 1_000_000_000_000,
        ;
    }
    lemma_ceiling_to_whole(quotient);
    assert((quotient + one - 1) / one == if z >= 1 {
        k + 1
    } else {
        k
    });
    assert(k <= pool_supply && (z >= 1 ==> k < pool_supply)) by (nonlinear_arith)
        requires
            n == d * k + r,
            0 <= r < d,
            n <= d * pool_supply,
            z >= 1 ==> r >= 1,
    ;
}

/// Works out the share `(d0 - d1) * pool_supply / d0` in precise numbers,
/// rounded up to a whole number.
pub fn precise_share(d0: u128, d1: u128, pool_supply: u128) -> (r: Result<u128, CurveError>)
    ensures
        r == share_in_precise_numbers(d0, d1, pool_supply),
{
    let before = PreciseNumber::new(d0)?;
    let after = PreciseNumber::new(d1)?;
    let diff = before.checked_sub(&after)?;
    let final_amount = diff.checked_mul(&PreciseNumber::new(pool_supply)?)?.checked_div(&before)?;
    final_amount.ceiling()?.to_imprecise()
}

/// Settles the pool tokens to burn for a fall of the invariant from `d0` to
/// `d1`, given the `estimate` that the precise numbers made of them. The
/// estimate stands where it is the share rounded up; where it is not, having
/// dropped a fraction beyond its decimal places or left 256 bits, the share
/// is divided and rounded up in 256-bit integers.
pub fn settle_share(estimate: Result<u128, CurveError>, d0: u128, d1: u128, pool_supply: u128) -> (r:
    Result<u128, CurveError>)
    ensures
        r == burned_share(d0, d1, pool_supply),
        r matches Ok(n) ==> {
            &&& n * d0 >= (d0 - d1) * pool_supply
            &&& n == 0 || (n - 1) * d0 < (d0 - d1) * pool_supply
            &&& n <= pool_supply
        },
{
    if d0 < d1 {
        return Err(CurveError::Overflow);
    }
    if d0 == 0 {
        return Err(CurveError::DivisionByZero);
    }
    proof {
        lemma_burned_share(d0, d1, pool_supply);
        assert((d0 - d1) * pool_supply < two_256()) by (nonlinear_arith)
            requires
                0 <= d0 - d1 <= u128::MAX,
                0 <= pool_supply <= u128::MAX,
                two_256()
                    == 0x1_0000_0000_0000_0000_0000_0000_0000_0000_0000_0000_0000_0000_0000_0000_0000_0000nat,
        ;
    }
    let divisor = U256::from_u128(d0);
    let product = U256::from_u128(d0 - d1).checked_mul(U256::from_u128(pool_supply))?;
    if let Ok(n) = estimate {
        if is_share_rounded_up(n, &product, &divisor) {
            return Ok(n);
        }
    }
    product.checked_div_ceil(divisor)?.to_u128()
}

/// Whether `n` is the quotient of `product` by `divisor` rounded up: the
/// least number whose product with the divisor reaches `product`.
fn is_share_rounded_up(n: u128, product: &U256, divisor: &U256) -> (r: bool)
    requires
        0 < divisor@ <= u128::MAX,
    ensures
        r == (n == div_ceil(product@ as int, divisor@ as int)),
{
    proof {
        let d = divisor@ as int;
        lemma_div_ceil_is_least(product@ as int, d, n as int);
        lemma_div_ceil_is_least(product@ as int, d, n - 1);
        assert(n * d < two_256() && (n >= 1 ==> 0 <= (n - 1) * d <= n * d)) by (nonlinear_arith)
            requires
                0 <= n <= u128::MAX,
                0 < d <= u128::MAX,
                two_256()
                    == 0x1_0000_0000_0000_0000_0000_0000_0000_0000_0000_0000_0000_0000_0000_0000_0000_0000nat,
        ;
        let c = div_ceil(product@ as int, d);
        if n > c {
            assert((n - 1) * d >= c * d) by (nonlinear_arith)
                requires
                    n - 1 >= c,
                    0 < d,
            ;
        }
    }
    let reach = match U256::from_u128(n).checked_mul(*divisor) {
        Ok(v) => v,
        Err(_) => {
            return false;
        },
    };
    if reach.lt(product) {
        return false;
    }
    if n == 0 {
        return true;
    }
    match U256::from_u128(n - 1).checked_mul(*divisor) {
        Ok(v) => v.lt(product),
        Err(_) => false,
    }
}

/// The reserve that a withdrawal takes from, and the other one.
pub open spec fn withdrawal_sides(
    swap_token_a_amount: u128,
    swap_token_b_amount: u128,
    trade_direction: TradeDirection,
) -> (u128, u128) {
    match trade_direction {
        TradeDirection::AtoB => (swap_token_a_amount, swap_token_b_amount),
        TradeDirection::BtoA => (swap_token_b_amount, swap_token_a_amount),
    }
}

/// What a withdrawal of exactly `source_amount` of one token burns on the
/// stable curve with amplifier `amp`. Nothing is burned for nothing. An amount
/// that is not below the reserve it is taken from is invalid. Else the share
/// burned is the fall of the invariant, from that of the reserves before to
/// that of the reserves after.
pub open spec fn stable_withdraw(
    amp: u64,
    source_amount: u128,
    swap_token_a_amount: u128,
    swap_token_b_amount: u128,
    pool_supply: u128,
    trade_direction: TradeDirection,
) -> Result<u128, CurveError> {
    let (withdraw, other) = withdrawal_sides(
        swap_token_a_amount,
        swap_token_b_amount,
        trade_direction,
    );
    let leverage = (amp * N_COINS_SQUARED) as nat;
    if source_amount == 0 {
        Ok(0u128)
    } else if source_amount >= withdraw {
        Err(CurveError::InvalidAmount)
    } else if leverage > u64::MAX {
        Err(CurveError::Overflow)
    } else {
        match invariant_d(leverage, swap_token_a_amount as nat, swap_token_b_amount as nat) {
            Err(e) => Err(e),
            Ok(d0) => match invariant_d(leverage, (withdraw - source_amount) as nat, other as nat) {
                Err(e) => Err(e),
                Ok(d1) => burned_share(d0, d1, pool_supply),
            },
        }
    }
}

/// On a pool of equal reserves a swap gives no more than it takes: the
/// stable curve stays at or below the price of one for one, whatever the
/// amplifier.
pub proof fn lemma_balanced_swap_at_most_one_for_one(amp: u64, source_amount: u128, reserve: u128)
    requires
        amp >= 1,
        stable_swap(amp, source_amount, reserve, reserve) is Ok,
    ensures
        stable_swap(amp, source_amount, reserve, reserve)->Ok_0.destination_amount_swapped
            <= source_amount,
        stable_swap(amp, source_amount, reserve, reserve)->Ok_0.source_amount_swapped
            == source_amount,
{
    let l = (amp * N_COINS_SQUARED) as nat;
    let r = reserve as int;
    let s = source_amount as int;
    let x = (reserve + source_amount) as nat;
    lemma_invariant_of_equal_reserves(l as u64, reserve);
    let d = (2 * r) as nat;
    let y = new_destination_amount(l, x, d)->Ok_0 as int;
    if s < r {
        let c = destination_c(l, x, d)->Value_0 as int;
        let b = destination_b(l, x, d)->Value_0 as int;
        lemma_new_destination_above_curve(l, x, d);
        let li = l as int;
        let di = d as int;
        let e = di / li;
        let cube = pow(di, 3);
        let m = (r + s) * 4 * li;
        lemma_cube(di);
        assert(b == r + s + e);
        assert(m > 0 && c == cube / m) by {
            assert(exact(x * 4).times(exact(l)) == Checked::Value(m as nat));
        }
        let u = r - s;
        // the one-for-one reserve `u` lies on or below the curve
        vstd::arithmetic::div_mod::lemma_fundamental_div_mod(di, li);
        vstd::arithmetic::div_mod::lemma_mod_bound(di, li);
        assert(e >= 0 && e * li <= 2 * r) by (nonlinear_arith)
            requires
                di == li * e + di % li,
                0 <= di % li,
                di == 2 * r,
                li > 0,
                r >= 0,
        ;
        assert(e * u * m <= cube) by (nonlinear_arith)
            requires
                e >= 0,
                e * li <= 2 * r,
                m == (r + s) * 4 * li,
                cube == (2 * r) * (2 * r) * (2 * r),
                u == r - s,
                0 <= s < r,
                li > 0,
        ;
        assert(e * u <= c) by {
            vstd::arithmetic::div_mod::lemma_div_is_ordered(e * u * m, cube, m);
            vstd::arithmetic::div_mod::lemma_div_multiples_vanish(e * u, m);
            assert(m * (e * u) == e * u * m) by (nonlinear_arith);
        }
        assert(u * u + (b - di) * u <= c) by (nonlinear_arith)
            requires
                e * u <= c,
                b - di == e - u,
        ;
        // and `y + 1` lies above it
        let t = y + 1;
        assert(t * t + (b - di) * t > c);
        assert(t > u) by (nonlinear_arith)
            requires
                t * t + (b - di) * t > c,
                u * u + (b - di) * u <= c,
                b - di == e - u,
                e >= 0,
                t >= 1,
                u >= 1,
        ;
    }
}

/// A withdrawal that succeeds burns the share of the supply by which the
/// invariant fell, rounded up: with `d0` the invariant before and `d1` the one
/// after, the least `n` of which `n * d0` reaches `(d0 - d1) * pool_supply`.
/// The burn is never rounded down, and never more than the supply.
pub proof fn lemma_withdraw_burns_share_rounded_up(
    amp: u64,
    source_amount: u128,
    swap_token_a_amount: u128,
    swap_token_b_amount: u128,
    pool_supply: u128,
    trade_direction: TradeDirection,
)
    requires
        source_amount != 0,
        stable_withdraw(
            amp,
            source_amount,
            swap_token_a_amount,
            swap_token_b_amount,
            pool_supply,
            trade_direction,
        ) is Ok,
    ensures
        ({
            let (withdraw, other) = withdrawal_sides(
                swap_token_a_amount,
                swap_token_b_amount,
                trade_direction,
            );
            let leverage = (amp * N_COINS_SQUARED) as nat;
            let d0 = invariant_d(
                leverage,
                swap_token_a_amount as nat,
                swap_token_b_amount as nat,
            )->Ok_0;
            let d1 = invariant_d(leverage, (withdraw - source_amount) as nat, other as nat)->Ok_0;
            let n = stable_withdraw(
                amp,
                source_amount,
                swap_token_a_amount,
                swap_token_b_amount,
                pool_supply,
                trade_direction,
            )->Ok_0;
            &&& 0 < d0
            &&& d1 <= d0
            &&& n * d0 >= (d0 - d1) * pool_supply
            &&& n == 0 || (n - 1) * d0 < (d0 - d1) * pool_supply
            &&& n <= pool_supply
        }),
{
    let (withdraw, other) = withdrawal_sides(
        swap_token_a_amount,
        swap_token_b_amount,
        trade_direction,
    );
    let leverage = (amp * N_COINS_SQUARED) as nat;
    let d0 = invariant_d(leverage, swap_token_a_amount as nat, swap_token_b_amount as nat)->Ok_0;
    let d1 = invariant_d(leverage, (withdraw - source_amount) as nat, other as nat)->Ok_0;
    lemma_burned_share(d0, d1, pool_supply);
}

/// On a pool of equal reserves, where the solver settles, a swap gives no
/// less than the constant product would, less one for the rounding: the
/// stable curve lies between the product and the sum.
pub proof fn lemma_balanced_swap_at_least_constant_product(
    amp: u64,
    source_amount: u128,
    reserve: u128,
)
    requires
        amp >= 1,
        reserve >= 1,
        stable_swap(amp, source_amount, reserve, reserve) is Ok,
        new_destination_settles(
            (amp * N_COINS_SQUARED) as nat,
            (reserve + source_amount) as nat,
            (2 * reserve) as nat,
        ),
    ensures
        stable_swap(amp, source_amount, reserve, reserve)->Ok_0.destination_amount_swapped + 1
            >= (reserve * source_amount) / (reserve + source_amount),
{
    let l = (amp * N_COINS_SQUARED) as nat;
    let r = reserve as int;
    let s = source_amount as int;
    let x = r + s;
    lemma_invariant_of_equal_reserves(l as u64, reserve);
    let d = (2 * r) as nat;
    let y = new_destination_amount(l, x as nat, d)->Ok_0 as int;
    let c = destination_c(l, x as nat, d)->Value_0 as int;
    let b = destination_b(l, x as nat, d)->Value_0 as int;
    lemma_new_destination_near_curve(l, x as nat, d);
    let li = l as int;
    let di = d as int;
    let e = di / li;
    let cube = pow(di, 3);
    let m = x * 4 * li;
    let w = (r * s) / x;
    lemma_cube(di);
    let r2 = r * r;
    let r3 = r * r * r;
    assert(cube == 8 * r3 && r2 >= 1 && r3 >= 1 && r3 == r * r2) by (nonlinear_arith)
        requires
            cube == di * (di * di),
            di == 2 * r,
            r2 == r * r,
            r3 == r * r * r,
            r >= 1,
    ;
    assert(b == x + e);
    assert(m > 0 && c == cube / m) by {
        assert(exact((x * 4) as nat).times(exact(l)) == Checked::Value(m as nat));
    }
    vstd::arithmetic::div_mod::lemma_fundamental_div_mod(cube, m);
    vstd::arithmetic::div_mod::lemma_mod_bound(cube, m);
    vstd::arithmetic::div_mod::lemma_fundamental_div_mod(di, li);
    vstd::arithmetic::div_mod::lemma_mod_bound(di, li);
    vstd::arithmetic::div_mod::lemma_fundamental_div_mod(r * s, x);
    vstd::arithmetic::div_mod::lemma_mod_bound(r * s, x);
    let el = e * li;
    assert(e >= 0 && 0 <= el <= 2 * r && el >= 2 * r - li + 1) by (nonlinear_arith)
        requires
            di == li * e + di % li,
            0 <= di % li < li,
            di == 2 * r,
            el == e * li,
            li > 0,
            r >= 0,
    ;
    assert(0 <= w <= s && (r - w) * x >= r2) by (nonlinear_arith)
        requires
            r * s == x * w + (r * s) % x,
            0 <= (r * s) % x < x,
            x == r + s,
            r >= 1,
            s >= 0,
            r2 == r * r,
    ;
    let t = r - w + 2;
    if y >= t {
        let h = s - w + 2;
        let g = b - di;
        assert(g == s - r + e);
        // the curve's left side grows from `t` on
        assert(y * y + g * y >= t * t + g * t) by (nonlinear_arith)
            requires
                y >= t,
                t + g >= 0,
                y >= 0,
        ;
        let k = t * h + e * t - 1;
        assert(t * t + g * t == k + 1) by (nonlinear_arith)
            requires
                k == t * h + e * t - 1,
                h == t + s - r,
                g == s - r + e,
        ;
        assert(k <= c);
        assert(k * m <= c * m) by (nonlinear_arith)
            requires
                k <= c,
                m > 0,
        ;
        assert(c * m <= cube) by (nonlinear_arith)
            requires
                cube == m * c + cube % m,
                0 <= cube % m,
        ;
        // but at `t` it is already above the right side
        let a = t * x;
        let la = li * a;
        let t1 = la * h;
        let t2 = a * el;
        let xl = x * li;
        let lr2 = li * r2;
        let th = t * h;
        let et = e * t;
        assert(m == 4 * xl) by (nonlinear_arith)
            requires
                m == x * 4 * li,
                xl == x * li,
        ;
        assert(la == t * xl) by (nonlinear_arith)
            requires
                la == li * a,
                a == t * x,
                xl == x * li,
        ;
        assert(t1 == th * xl) by (nonlinear_arith)
            requires
                t1 == la * h,
                la == t * xl,
                th == t * h,
        ;
        assert(t2 == et * xl) by (nonlinear_arith)
            requires
                t2 == a * el,
                a == t * x,
                el == e * li,
                et == e * t,
                xl == x * li,
        ;
        assert(k * m == 4 * t1 + 4 * t2 - 4 * xl) by (nonlinear_arith)
            requires
                k == th + et - 1,
                m == 4 * xl,
                t1 == th * xl,
                t2 == et * xl,
        ;
        assert(a >= r2 + 2 * x) by (nonlinear_arith)
            requires
                a == t * x,
                t == r - w + 2,
                (r - w) * x >= r2,
        ;
        assert(la >= lr2 + 2 * xl && xl >= 1 && lr2 >= 1) by (nonlinear_arith)
            requires
                la == li * a,
                a >= r2 + 2 * x,
                lr2 == li * r2,
                xl == x * li,
                li >= 1,
                x >= 1,
                r2 >= 1,
        ;
        assert(t1 >= 2 * la) by (nonlinear_arith)
            requires
                t1 == la * h,
                h >= 2,
                la >= 0,
        ;
        assert(t2 >= r2 * el && t2 >= 0) by (nonlinear_arith)
            requires
                t2 == a * el,
                a >= r2,
                r2 >= 0,
                el >= 0,
        ;
        if 2 * r - li + 1 >= 0 {
            assert(r2 * el >= 2 * r3 - lr2 + r2) by (nonlinear_arith)
                requires
                    el >= 2 * r - li + 1,
                    r2 >= 0,
                    r3 == r * r2,
                    lr2 == li * r2,
            ;
        } else {
            assert(lr2 >= 2 * r3 + 2 * r2) by (nonlinear_arith)
                requires
                    li >= 2 * r + 2,
                    r2 >= 0,
                    r3 == r * r2,
                    lr2 == li * r2,
            ;
        }
        assert(k * m > cube);
    }
}

/// Paying more into the same pool never gives less, where the solver settles
/// for the larger amount. (Two amounts may give the same: the amounts out are
/// whole tokens.)
pub proof fn lemma_swap_never_gives_less_for_more(
    amp: u64,
    smaller_amount: u128,
    larger_amount: u128,
    swap_source_amount: u128,
    swap_destination_amount: u128,
)
    requires
        smaller_amount <= larger_amount,
        stable_swap(amp, smaller_amount, swap_source_amount, swap_destination_amount) is Ok,
        stable_swap(amp, larger_amount, swap_source_amount, swap_destination_amount) is Ok,
        new_destination_settles(
            (amp * N_COINS_SQUARED) as nat,
            (swap_source_amount + larger_amount) as nat,
            invariant_d(
                (amp * N_COINS_SQUARED) as nat,
                swap_source_amount as nat,
                swap_destination_amount as nat,
            )->Ok_0 as nat,
        ),
    ensures
        stable_swap(
            amp,
            smaller_amount,
            swap_source_amount,
            swap_destination_amount,
        )->Ok_0.destination_amount_swapped <= stable_swap(
            amp,
            larger_amount,
            swap_source_amount,
            swap_destination_amount,
        )->Ok_0.destination_amount_swapped,
{
    let l = (amp * N_COINS_SQUARED) as nat;
    let d = invariant_d(l, swap_source_amount as nat, swap_destination_amount as nat)->Ok_0 as nat;
    let x1 = (swap_source_amount + smaller_amount) as nat;
    let x2 = (swap_source_amount + larger_amount) as nat;
    let y1 = new_destination_amount(l, x1, d)->Ok_0 as int;
    let y2 = new_destination_amount(l, x2, d)->Ok_0 as int;
    if smaller_amount < larger_amount && y2 > y1 {
        let c1 = destination_c(l, x1, d)->Value_0 as int;
        let b1 = destination_b(l, x1, d)->Value_0 as int;
        let c2 = destination_c(l, x2, d)->Value_0 as int;
        let b2 = destination_b(l, x2, d)->Value_0 as int;
        lemma_new_destination_above_curve(l, x1, d);
        lemma_new_destination_near_curve(l, x2, d);
        let di = d as int;
        let li = l as int;
        let cube = pow(di, 3);
        let m1 = x1 * 4 * li;
        let m2 = x2 * 4 * li;
        lemma_cube(di);
        assert(new_destination_amount(l, x1, d) is Ok);
        assert(new_destination_amount(l, x2, d) is Ok);
        let below1 = exact(x1 * 4).times(exact(l));
        let below2 = exact(x2 * 4).times(exact(l));
        assert(destination_c(l, x1, d) == exact(d).to_the(3).over(below1));
        assert(destination_c(l, x2, d) == exact(d).to_the(3).over(below2));
        assert(below1 == Checked::Value((x1 * 4 * l) as nat));
        assert(below2 == Checked::Value((x2 * 4 * l) as nat));
        assert(m1 > 0 && c1 == cube / m1);
        assert(m2 > 0 && c2 == cube / m2);
        assert(m1 <= m2) by (nonlinear_arith)
            requires
                m1 == x1 * 4 * li,
                m2 == x2 * 4 * li,
                x1 <= x2,
                li >= 0,
        ;
        vstd::arithmetic::div_mod::lemma_div_is_ordered_by_denominator(cube, m1, m2);
        vstd::arithmetic::div_mod::lemma_div_pos_is_pos(cube, m2);
        assert(b2 - b1 == x2 - x1);
        let t = y1 + 1;
        let g1 = b1 - di;
        let g2 = b2 - di;
        // at `t` the curve of the larger amount is at least two above its right side
        assert(t * t + g2 * t - c2 >= 2) by (nonlinear_arith)
            requires
                t * t + g1 * t > c1,
                g2 - g1 >= 1,
                c2 <= c1,
                t >= 1,
        ;
        // and from there on it stays so
        assert(t * (y2 * y2 + g2 * y2 - c2) - y2 * (t * t + g2 * t - c2) == (y2 - t) * (t * y2
            + c2)) by (nonlinear_arith);
        assert((y2 - t) * (t * y2 + c2) >= 0) by (nonlinear_arith)
            requires
                y2 >= t,
                t >= 1,
                c2 >= 0,
        ;
        assert(y2 * y2 + g2 * y2 - c2 >= 2) by (nonlinear_arith)
            requires
                t * (y2 * y2 + g2 * y2 - c2) >= y2 * (t * t + g2 * t - c2),
                t * t + g2 * t - c2 >= 2,
                y2 >= t,
                t >= 1,
        ;
    }
}

impl CurveCalculator for StableCurve {
    open spec fn swap_outcome(
        &self,
        source_amount: u128,
        swap_source_amount: u128,
        swap_destination_amount: u128,
        trade_direction: TradeDirection,
    ) -> Result<SwapWithoutFeesResult, CurveError> {
        stable_swap(self.amp, source_amount, swap_source_amount, swap_destination_amount)
    }

    open spec fn withdraw_outcome(
        &self,
        source_amount: u128,
        swap_token_a_amount: u128,
        swap_token_b_amount: u128,
        pool_supply: u128,
        trade_direction: TradeDirection,
    ) -> Result<u128, CurveError> {
        stable_withdraw(
            self.amp,
            source_amount,
            swap_token_a_amount,
            swap_token_b_amount,
            pool_supply,
            trade_direction,
        )
    }

    fn swap_without_fees(
        &self,
        source_amount: u128,
        swap_source_amount: u128,
        swap_destination_amount: u128,
        trade_direction: TradeDirection,
    ) -> (r: Result<SwapWithoutFeesResult, CurveError>) {
        let leverage: u64 = match self.amp.checked_mul(N_COINS_SQUARED as u64) {
            Some(v) => v,
            None => {
                return Err(CurveError::Overflow);
            },
        };
        let new_source_amount: u128 = match swap_source_amount.checked_add(source_amount) {
            Some(v) => v,
            None => {
                return Err(CurveError::Overflow);
            },
        };
        let d = compute_d(leverage, swap_source_amount, swap_destination_amount)?;
        let new_destination_amount = compute_new_destination_amount(
            leverage,
            new_source_amount,
            d,
        )?;
        if new_destination_amount > swap_destination_amount {
            return Err(CurveError::InvalidAmount);
        }
        Ok(
            SwapWithoutFeesResult {
                source_amount_swapped: source_amount,
                destination_amount_swapped: swap_destination_amount - new_destination_amount,
            },
        )
    }

    fn withdraw_single_token_type_exact_out(
        &self,
        source_amount: u128,
        swap_token_a_amount: u128,
        swap_token_b_amount: u128,
        pool_supply: u128,
        trade_direction: TradeDirection,
    ) -> (r: Result<u128, CurveError>)
        ensures
            source_amount == 0 ==> r == Ok::<u128, CurveError>(0u128),
            source_amount != 0 && source_amount >= withdrawal_sides(
                swap_token_a_amount,
                swap_token_b_amount,
                trade_direction,
            ).0 ==> r == Err::<u128, CurveError>(CurveError::InvalidAmount),
    {
        if source_amount == 0 {
            return Ok(0);
        }
        let (withdraw_token_amount, other_token_amount) = match trade_direction {
            TradeDirection::AtoB => (swap_token_a_amount, swap_token_b_amount),
            TradeDirection::BtoA => (swap_token_b_amount, swap_token_a_amount),
        };
        if source_amount >= withdraw_token_amount {
            return Err(CurveError::InvalidAmount);
        }
        let leverage: u64 = match self.amp.checked_mul(N_COINS_SQUARED as u64) {
            Some(v) => v,
            None => {
                return Err(CurveError::Overflow);
            },
        };
        let d0 = compute_d(leverage, swap_token_a_amount, swap_token_b_amount)?;
        let updated_deposit_token_amount: u128 = withdraw_token_amount - source_amount;
        let d1 = compute_d(leverage, updated_deposit_token_amount, other_token_amount)?;
        settle_share(precise_share(d0, d1, pool_supply), d0, d1, pool_supply)
    }
}

} // verus!
