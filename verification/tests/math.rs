use cosmwasm_std::{Decimal256, Uint256};
use wineswap::asset::TokenNumber;
use wineswap::decimal::Decimal;
use wineswap::liquidity::{compute_liquidity, compute_token_liquidity, get_token_amount_from_liquidity};
use wineswap::price::compute_price;
use wineswap::swap::{compute_swap_tick, compute_swap_tick_reverse};
use wineswap::tick::{
    checked_tick_index_to_tick, denominator, get_tick_from_price_sqrt, get_tick_price_sqrt, tick_index_to_tick,
    tick_to_tick_index, MAX_TICK, MIN_TICK,
};
use wineswap::u256::{checked_div, checked_mul_div, div, div512, mul_div, U256, U512};

fn to_uint256(x: U256) -> Uint256 {
    (Uint256::from(x.high_u128()) << 128) + Uint256::from(x.low_u128())
}

fn times(x: U256, n: u128) -> U256 {
    x.checked_mul(&U256::from_u128(n)).unwrap()
}

fn half(x: U256) -> U256 {
    div(x, U256::from_u128(2), false)
}

#[test]
fn div_test() {
    let rounding_up = div(U256::from_u128(3), U256::from_u128(2), true);

    assert_eq!(U256::from_u128(2), rounding_up);

    let rounding_up = div(U256::from_u128(5), U256::from_u128(4), true);

    assert_eq!(U256::from_u128(1), rounding_up);

    let not_rounding_up = div(U256::from_u128(5), U256::from_u128(3), false);

    assert_eq!(U256::from_u128(1), not_rounding_up);

    let not_rounding_up = div(U256::from_u128(4), U256::from_u128(3), false);

    assert_eq!(U256::from_u128(1), not_rounding_up);
}

#[test]
fn denominator_test() {
    assert_eq!(
        denominator(),
        U256::from_u128(0x80000000000000000000000000000000u128)
            .checked_add(&U256::from_u128(0x80000000000000000000000000000000u128))
            .unwrap()
    );
}

#[test]
fn zero_tick() {
    let zero_tick_price = get_tick_price_sqrt(0i32);
    assert_eq!(
        Decimal256::one(),
        Decimal256::from_ratio(to_uint256(zero_tick_price), to_uint256(denominator()))
    )
}

#[test]
fn tick_bigger_than_zero() {
    // some random tick
    let tick = 268419i32;
    let calculator_result = Decimal256::from_ratio(673524059466525288069u128, 1000000000000000u128);
    let tick_price_sqrt = get_tick_price_sqrt(tick);
    let tick_price_sqrt_dec = Decimal256::from_ratio(to_uint256(tick_price_sqrt), to_uint256(denominator()));
    let diff = if tick_price_sqrt_dec > calculator_result {
        tick_price_sqrt_dec - calculator_result
    } else {
        calculator_result - tick_price_sqrt_dec
    };
    assert!(diff <= Decimal256::from_ratio(5u128, 10000000000000000u128))
}

#[test]
fn tick_smaller_than_zero() {
    // some random tick
    let tick = -23421i32;
    let calculator_result = Decimal256::from_ratio(310059380017268u128, 1000000000000000u128);
    let tick_price_sqrt = get_tick_price_sqrt(tick);
    let tick_price_sqrt_dec = Decimal256::from_ratio(to_uint256(tick_price_sqrt), to_uint256(denominator()));
    let diff = if tick_price_sqrt_dec > calculator_result {
        tick_price_sqrt_dec - calculator_result
    } else {
        calculator_result - tick_price_sqrt_dec
    };
    assert!(diff <= Decimal256::from_ratio(5u128, 10000000000000000u128));
}

#[test]
fn tick_from_price_test() {
    // some random tick
    let tick_ = 128947i32;

    let price_sqrt = get_tick_price_sqrt(tick_);

    // when price is exactly same
    let tick = get_tick_from_price_sqrt(price_sqrt);
    assert_eq!(tick, tick_);

    // price between tick prices
    let tick = get_tick_from_price_sqrt(price_sqrt.checked_add(&U256::from_u128(100u128)).unwrap());
    assert_eq!(tick, tick_);

    let tick_ = -42314i32;

    let price_sqrt = get_tick_price_sqrt(tick_);

    // when price is exactly same
    let tick = get_tick_from_price_sqrt(price_sqrt);
    assert_eq!(tick, tick_);

    // price between tick prices
    let tick = get_tick_from_price_sqrt(price_sqrt.checked_add(&U256::from_u128(100u128)).unwrap());
    assert_eq!(tick, tick_);

    let tick_ = 0i32;

    let price_sqrt = get_tick_price_sqrt(tick_);

    // when price is exactly same
    let tick = get_tick_from_price_sqrt(price_sqrt);
    assert_eq!(tick, tick_);

    // price between tick prices
    let tick = get_tick_from_price_sqrt(price_sqrt.checked_add(&U256::from_u128(100u128)).unwrap());
    assert_eq!(tick, tick_);
}

#[test]
fn tick_to_tick_index_test() {
    let tick_index = tick_to_tick_index(301i32, 30u16);
    assert_eq!(tick_index, 10i32);

    let tick_index = tick_to_tick_index(-19i32, 30u16);
    assert_eq!(tick_index, -1i32);

    let tick_index = tick_to_tick_index(-60i32, 30u16);
    assert_eq!(tick_index, -2i32);

    let tick_index = tick_to_tick_index(0i32, 3124u16);
    assert_eq!(tick_index, 0i32);
}

#[test]
fn get_amount_from_liquidity_test() {
    // price_low = 0.92774696514123 / price_low.sqrt = 0.963196223591657
    // price_high = 1.077880109096094 / price_high.sqrt = 1.038210050565922
    let upper_tick_index = 9i32;
    let lower_tick_index = -10i32;
    let tick_space = 75u16;
    let liquidity = 100000000000u128;

    // case1. price in price range
    // price = 1
    let current_price_sqrt = denominator();

    let (amount0, amount1) = get_token_amount_from_liquidity(
        upper_tick_index,
        lower_tick_index,
        tick_space,
        current_price_sqrt,
        liquidity,
    )
    .unwrap();

    assert_eq!(amount0, 3680377641u128);
    assert_eq!(amount1, 3680377641u128);

    // case2. price is over the price range
    // price = 4
    let current_price_sqrt = times(denominator(), 2u128);

    let (amount0, amount1) = get_token_amount_from_liquidity(
        upper_tick_index,
        lower_tick_index,
        tick_space,
        current_price_sqrt,
        liquidity,
    )
    .unwrap();

    assert_eq!(amount0, 0u128);
    assert_eq!(amount1, 7501382697u128);

    // case3. price is under the price range
    // price = 0.5
    let current_price_sqrt = half(denominator());

    let (amount0, amount1) = get_token_amount_from_liquidity(
        upper_tick_index,
        lower_tick_index,
        tick_space,
        current_price_sqrt,
        liquidity,
    )
    .unwrap();

    assert_eq!(amount0, 7501382697u128);
    assert_eq!(amount1, 0u128);
}

#[test]
fn compute_liquidity_test() {
    let token0_amount = 100000000000u128;
    let token1_amount = 100000000000u128;
    let upper_tick_index = 9;
    let lower_tick_index = -10;
    let tick_space = 75u16;

    // case1. price in price range
    // price = 1
    let current_price_sqrt = denominator();

    let liquidity = compute_liquidity(
        token0_amount,
        token1_amount,
        current_price_sqrt,
        upper_tick_index,
        lower_tick_index,
        tick_space,
    )
    .unwrap();

    assert_eq!(liquidity, 2717112474831u128);

    // case2. price is above the price range
    // price = 4
    let current_price_sqrt = times(denominator(), 2u128);

    let liquidity = compute_liquidity(
        token0_amount,
        token1_amount,
        current_price_sqrt,
        upper_tick_index,
        lower_tick_index,
        tick_space,
    )
    .unwrap();

    assert_eq!(liquidity, 1333087565767u128);

    // case3. price is under the price range
    // price = 0.5
    let current_price_sqrt = half(denominator());

    let liquidity = compute_liquidity(
        token0_amount,
        token1_amount,
        current_price_sqrt,
        upper_tick_index,
        lower_tick_index,
        tick_space,
    )
    .unwrap();

    assert_eq!(liquidity, 1333087565767u128);
}

#[test]
fn price_test() {
    let price = compute_price(
        denominator(),
        10000000000u128,
        10000000000u128,
        // sell
        &TokenNumber::Token0,
    )
    .unwrap();

    // price 0.25 price_sqrt 0.5
    assert_eq!(
        Decimal256::from_ratio(1u128, 2u128),
        Decimal256::from_ratio(to_uint256(price), to_uint256(denominator()))
    );

    let price = compute_price(
        denominator(),
        10000000000u128,
        10000000000u128,
        // buy
        &TokenNumber::Token1,
    )
    .unwrap();

    // price 4 price_sqrt 2
    assert_eq!(
        Decimal256::from_ratio(2u128, 1u128),
        Decimal256::from_ratio(to_uint256(price), to_uint256(denominator()))
    );
}

#[test]
fn swap_swap_test() {
    // buy
    let (_, return_amount, _, _, _) = compute_swap_tick(
        0,
        20000u16,
        denominator(),
        10000000000u128,
        &TokenNumber::Token1,
        10000000000u128,
        Decimal::zero(),
    )
    .unwrap();

    let theorical_amount = 5000000000u128;
    let diff = if theorical_amount > return_amount {
        theorical_amount - return_amount
    } else {
        return_amount - theorical_amount
    };

    // can be diff == 1
    assert!(diff <= 1u128);

    // sell
    let (_, return_amount, _, _, _) = compute_swap_tick(
        -1,
        20000u16,
        denominator(),
        10000000000u128,
        &TokenNumber::Token0,
        10000000000u128,
        Decimal::zero(),
    )
    .unwrap();

    let theorical_amount = 5000000000u128;
    let diff = if theorical_amount > return_amount {
        theorical_amount - return_amount
    } else {
        return_amount - theorical_amount
    };

    // can be diff == 1
    assert!(diff <= 1u128)
}

#[test]
fn swap_reverse_test() {
    // buy
    let (offer_amount, _, _, _, _) = compute_swap_tick_reverse(
        0,
        30000u16,
        times(denominator(), 2u128),
        20000000000u128,
        &TokenNumber::Token0,
        5000000000u128,
        Decimal::zero(),
    )
    .unwrap();

    let theorical_amount = 40000000000u128;
    let diff = if theorical_amount > offer_amount {
        theorical_amount - offer_amount
    } else {
        offer_amount - theorical_amount
    };

    // can be diff == 1
    assert!(diff <= 1u128);

    // sell
    let (offer_amount, _, _, _, _) = compute_swap_tick_reverse(
        -1,
        30000u16,
        denominator(),
        10000000000u128,
        &TokenNumber::Token1,
        5000000000u128,
        Decimal::zero(),
    )
    .unwrap();

    let theorical_amount = 10000000000u128;
    let diff = if theorical_amount > offer_amount {
        theorical_amount - offer_amount
    } else {
        offer_amount - theorical_amount
    };
    // can be diff == 1
    assert!(diff <= 1u128)
}

#[test]
fn wide_arithmetic_matches_cosmwasm() {
    let a = U256::from_words(0x1234_5678_9abc_def0_0fed_cba9_8765_4321, 0xdead_beef_0000_1111_2222_3333_4444_5555);
    let b = U256::from_words(0, 0xffff_ffff_ffff_ffff_ffff_ffff_ffff_fff1);
    let c = U256::from_words(0x77, 0x1000_0000_0000_0000_0000_0000_0000_0003);
    let expected = to_uint256(a).full_mul(to_uint256(b)) / cosmwasm_std::Uint512::from(to_uint256(c));
    let expected = Uint256::try_from(expected).unwrap();
    assert_eq!(to_uint256(mul_div(a, b, c, false)), expected);
    let q = div512(U512::from_u256(a), U512::from_u256(c), false).to_u256().unwrap();
    assert_eq!(to_uint256(q), to_uint256(a) / to_uint256(c));
    assert_eq!(to_uint256(U256::mul_shr(a, b, 128)), Uint256::try_from(to_uint256(a).full_mul(to_uint256(b)) >> 128).unwrap());
    assert_eq!(to_uint256(a.checked_sub(&c).unwrap()), to_uint256(a) - to_uint256(c));
    assert_eq!(to_uint256(a.checked_add(&c).unwrap()), to_uint256(a) + to_uint256(c));
    assert!(U256::max_value().checked_add(&U256::from_u128(1)).is_none());
    assert!(c.checked_sub(&a).is_none());
}

#[test]
fn tick_bounds_round_trip() {
    for tick in [MIN_TICK, MIN_TICK + 1, -1, 0, 1, 2, 887270, MAX_TICK] {
        let price = get_tick_price_sqrt(tick);
        assert_eq!(get_tick_from_price_sqrt(price), tick);
        let next = get_tick_price_sqrt(tick + 1);
        assert!(price.lt(&next));
        let just_below_next = next.checked_sub(&U256::from_u128(1)).unwrap();
        assert_eq!(get_tick_from_price_sqrt(just_below_next), tick);
    }
    assert_eq!(tick_to_tick_index(tick_index_to_tick(-7, 75), 75), -7);
    assert_eq!(tick_to_tick_index(tick_index_to_tick(11829, 75), 75), 11829);
}

fn decimal_price(digits: &str) -> U256 {
    let mut value = U256::zero();
    for c in digits.chars() {
        let digit = c.to_digit(10).unwrap() as u128;
        value = value.checked_mul(&U256::from_u128(10)).unwrap().checked_add(&U256::from_u128(digit)).unwrap();
    }
    value
}

#[test]
fn rounding_rule() {
    let round = |a: u128, b: u128| div(U256::from_u128(a), U256::from_u128(b), true);
    let floor = |a: u128, b: u128| div(U256::from_u128(a), U256::from_u128(b), false);
    // an exact tie with an even divisor goes up
    assert_eq!(round(6, 4), U256::from_u128(2));
    assert_eq!(round(1, 2), U256::from_u128(1));
    // an odd divisor has no tie: just below half stays, just above goes up
    assert_eq!(round(7, 5), U256::from_u128(1));
    assert_eq!(round(8, 5), U256::from_u128(2));
    assert_eq!(round(1, 3), U256::from_u128(0));
    assert_eq!(round(2, 3), U256::from_u128(1));
    // below half stays
    assert_eq!(round(5, 4), U256::from_u128(1));
    assert_eq!(round(0, 1), U256::from_u128(0));
    assert_eq!(round(9, 1), U256::from_u128(9));
    assert_eq!(floor(7, 4), U256::from_u128(1));
    assert_eq!(floor(8, 5), U256::from_u128(1));
    // the same rule over the 512-bit product
    let product = |a: u128, b: u128, c: u128, up: bool| {
        mul_div(U256::from_u128(a), U256::from_u128(b), U256::from_u128(c), up)
    };
    assert_eq!(product(3, 2, 4, true), U256::from_u128(2));
    assert_eq!(product(3, 2, 4, false), U256::from_u128(1));
    assert_eq!(product(u128::MAX, u128::MAX, u128::MAX, true), U256::from_u128(u128::MAX));
    let wide = div512(U512::from_u128(7), U512::from_u128(2), true);
    assert!(wide.equals(&U512::from_u128(4)));
    assert_eq!(
        div(U256::max_value(), U256::from_u128(2), true),
        U256::from_words(1u128 << 127, 0)
    );
}

#[test]
fn checked_arithmetic_fails_loudly() {
    let max = U256::max_value();
    let one = U256::from_u128(1);
    let two = U256::from_u128(2);
    assert_eq!(checked_mul_div(max, two, one, false), None);
    assert_eq!(checked_mul_div(max, two, two, false), Some(max));
    assert_eq!(checked_mul_div(max, one, U256::zero(), false), None);
    assert_eq!(checked_div(max, U256::zero(), true), None);
    assert_eq!(max.checked_mul(&two), None);
    assert_eq!(U256::from_words(1, 0).checked_mul(&U256::from_words(1, 0)), None);
    assert_eq!(
        U256::from_u128(u128::MAX).checked_mul(&U256::from_u128(u128::MAX)),
        Some(U256::from_words(u128::MAX - 1, 1))
    );
    assert_eq!(U256::checked_mul_shr(max, max, 255), None);
    assert_eq!(U256::checked_mul_shr(max, max, 256), Some(U256::from_words(u128::MAX, u128::MAX - 1)));
    assert_eq!(U256::checked_mul_shr(max, max, 512), Some(U256::zero()));
    assert_eq!(U256::checked_mul_shr(max, max, 600), Some(U256::zero()));
    assert_eq!(U256::mul_shr(U256::from_u128(12), U256::from_u128(12), 4), U256::from_u128(9));
    assert_eq!(U256::mul_shr(U256::from_words(3, 5), U256::from_words(1, 0), 128), U256::from_words(3, 5));
    assert_eq!(U256::mul_shr(U256::from_words(3, 5), U256::from_words(1, 0), 64), U256::from_words(3 << 64, 5 << 64));
    assert_eq!(U256::from_words(7, 9).to_u128(), None);
    assert_eq!(U256::from_words(0, 9).to_u128(), Some(9));
    assert_eq!(U256::from_words(7, 9).high_u128(), 7);
    assert_eq!(U256::from_words(7, 9).low_u128(), 9);
    assert!(U256::zero().is_zero());
    assert!(!U256::from_words(1, 0).is_zero());
    assert!(U256::from_words(1, 0).gt(&U256::from_words(0, u128::MAX)));
    assert!(U256::from_words(0, u128::MAX).lt(&U256::from_words(1, 0)));
    assert!(U256::from_words(1, 0).ge(&U256::from_words(1, 0)));
    assert!(U256::from_words(1, 0).le(&U256::from_words(1, 0)));
    assert!(U256::from_words(1, 2).equals(&U256::from_words(1, 2)));
    assert!(!U256::from_words(1, 2).equals(&U256::from_words(2, 1)));
    let (q, r) = U512::from_u128(100).div_rem(&U512::from_u128(7));
    assert!(q.equals(&U512::from_u128(14)) && r.equals(&U512::from_u128(2)));
    assert!(U512::zero().is_zero());
    assert!(max.full_mul(&max).shr(256).to_u256().unwrap().equals(&U256::from_words(u128::MAX, u128::MAX - 1)));
    assert!(max.full_mul(&max).to_u256().is_none());
}

#[test]
fn tick_prices_at_the_bounds() {
    assert_eq!(get_tick_price_sqrt(MIN_TICK), U256::from_words(0, 0x1000276a221a17501));
    assert_eq!(get_tick_price_sqrt(-1), U256::from_words(0, 0xfffcb933bd6fad37aa2d162d1a594001));
    assert_eq!(get_tick_price_sqrt(1), U256::from_words(1, 0x000346d6ff11672ae55ad00f5c38565c));
    assert_eq!(
        get_tick_price_sqrt(MAX_TICK),
        U256::from_words(0xfffa429fbf7baeed, 0x2496f0a9f5ccf2bb4abf52f8a236aa44)
    );
    // a price below the lowest tick's ends the search on the tick below the lowest
    let lowest = get_tick_price_sqrt(MIN_TICK);
    assert_eq!(get_tick_from_price_sqrt(U256::zero()), MIN_TICK - 1);
    assert_eq!(get_tick_from_price_sqrt(U256::from_u128(1)), MIN_TICK - 1);
    assert_eq!(get_tick_from_price_sqrt(lowest.checked_sub(&U256::from_u128(1)).unwrap()), MIN_TICK - 1);
    assert_eq!(get_tick_from_price_sqrt(lowest), MIN_TICK);
    // a price at or above that of the tick after the highest ends it on the highest
    let top = get_tick_price_sqrt(MAX_TICK + 1);
    assert_eq!(get_tick_from_price_sqrt(top.checked_sub(&U256::from_u128(1)).unwrap()), MAX_TICK);
    assert_eq!(get_tick_from_price_sqrt(top), MAX_TICK);
    assert_eq!(get_tick_from_price_sqrt(top.checked_add(&U256::from_u128(1)).unwrap()), MAX_TICK);
    assert_eq!(get_tick_from_price_sqrt(U256::max_value()), MAX_TICK);
    assert_eq!(checked_tick_index_to_tick(11829, 75), Some(887175));
    assert_eq!(checked_tick_index_to_tick(-7, 30), Some(-210));
    assert_eq!(checked_tick_index_to_tick(i32::MAX, 2), None);
    assert_eq!(checked_tick_index_to_tick(i32::MIN, 2), None);
    assert_eq!(checked_tick_index_to_tick(i32::MIN, 1), Some(i32::MIN));
    assert_eq!(tick_to_tick_index(-1, 1), -1);
    assert_eq!(tick_to_tick_index(i32::MIN, 1), i32::MIN);
    assert_eq!(tick_to_tick_index(i32::MIN, 65535), -32769);
    assert_eq!(tick_to_tick_index(i32::MAX, 65535), 32768);
    assert_eq!(tick_to_tick_index(-30, 30), -1);
    assert_eq!(tick_to_tick_index(-31, 30), -2);
    assert_eq!(tick_to_tick_index(29, 30), 0);
}

#[test]
fn deposit_never_grows() {
    let cases: [(u128, u128, U256, i32, i32, u16, u128, (u128, u128)); 4] = [
        (100000000000, 100000000000, denominator(), 9, -10, 75, 2717112474831, (100000000000, 100000000000)),
        (12345, 99999, get_tick_price_sqrt(37), 3, -2, 20, 5758965, (12345, 22169)),
        (
            5,
            7,
            get_tick_price_sqrt(-1000).checked_add(&U256::from_u128(12345)).unwrap(),
            0,
            -1,
            1000,
            49,
            (5, 0),
        ),
        (
            1000000000000000000000000000000,
            1000000000000000000000000000000,
            denominator(),
            100,
            -100,
            10,
            20307178224625555189670616251454,
            (1000000000000000000000000000000, 990344479976783323821206077892),
        ),
    ];
    for (amount0, amount1, price, upper, lower, space, liquidity, back) in cases {
        let computed = compute_liquidity(amount0, amount1, price, upper, lower, space).unwrap();
        assert_eq!(computed, liquidity);
        let (back0, back1) = get_token_amount_from_liquidity(upper, lower, space, price, computed).unwrap();
        assert_eq!((back0, back1), back);
        assert!(back0 <= amount0 && back1 <= amount1);
    }
}

#[test]
fn liquidity_edges() {
    // an inverted range gives zero of everything
    assert_eq!(get_token_amount_from_liquidity(-10, 9, 75, denominator(), 5), Some((0, 0)));
    assert_eq!(compute_liquidity(5, 5, denominator(), -10, 9, 75), Some(0));
    // a boundary tick that no i32 holds
    assert_eq!(get_token_amount_from_liquidity(i32::MAX, 0, 75, denominator(), 5), None);
    assert_eq!(compute_liquidity(5, 5, denominator(), 0, i32::MIN, 75), None);
    // the price on the lower edge of the range: token 1 cannot provide liquidity
    assert_eq!(compute_liquidity(5, 5, get_tick_price_sqrt(-750), 9, -10, 75), None);
    // an amount beyond 128 bits
    assert_eq!(get_token_amount_from_liquidity(8000, 0, 100, get_tick_price_sqrt(MAX_TICK), u128::MAX), None);
    assert!(get_token_amount_from_liquidity(8000, -8000, 100, denominator(), u128::MAX).is_some());
    let high = get_tick_price_sqrt(1100);
    let low = get_tick_price_sqrt(-1000);
    assert_eq!(compute_token_liquidity(TokenNumber::Token0, 1000000, high, denominator()), Some(18687310));
    assert_eq!(compute_token_liquidity(TokenNumber::Token1, 1000000, denominator(), low), Some(20505166));
    assert_eq!(compute_token_liquidity(TokenNumber::Token1, 1000000, low, low), None);
    assert_eq!(compute_token_liquidity(TokenNumber::Token0, 1000000, low, high), None);
}

#[test]
fn step_on_the_edge_crosses() {
    let fee = Decimal::raw(10_000_000_000_000_000);
    let low = get_tick_price_sqrt(300);
    let high = get_tick_price_sqrt(400);
    assert_eq!(low, decimal_price("345424817268364257576892481569928952754"));
    assert_eq!(high, decimal_price("347156179587006492543914747670391718511"));
    // on the lower edge an offer of token 0 consumes nothing and moves one bucket down
    assert_eq!(
        compute_swap_tick(3, 100, low, 1_000_000_000, &TokenNumber::Token0, 1000, fee),
        Some((0, 0, 0, low, 2))
    );
    // on the upper edge an offer of token 1 consumes nothing and moves one bucket up
    assert_eq!(
        compute_swap_tick(3, 100, high, 1_000_000_000, &TokenNumber::Token1, 1000, fee),
        Some((0, 0, 0, high, 4))
    );
    // the other way the bucket trades
    assert_eq!(
        compute_swap_tick(3, 100, low, 1_000_000_000, &TokenNumber::Token1, 1000, fee),
        Some((1000, 970, 9, decimal_price("345425157550731178515355944944536384522"), 3))
    );
    assert_eq!(
        compute_swap_tick(3, 100, high, 1_000_000_000, &TokenNumber::Token0, 1000, fee),
        Some((1000, 1040, 10, decimal_price("347155825574560664430994423579279345222"), 3))
    );
    // the same for a step that asks for a return
    assert_eq!(
        compute_swap_tick_reverse(3, 100, low, 1_000_000_000, &TokenNumber::Token1, 1000, fee),
        Some((0, 0, 0, low, 2))
    );
    assert_eq!(
        compute_swap_tick_reverse(3, 100, high, 1_000_000_000, &TokenNumber::Token0, 1000, fee),
        Some((0, 0, 0, high, 4))
    );
    // outside the bucket, or without liquidity, the step is idle
    let idle = Some((0, 0, 0, U256::zero(), 0));
    let below = low.checked_sub(&U256::from_u128(1)).unwrap();
    let above = high.checked_add(&U256::from_u128(1)).unwrap();
    assert_eq!(compute_swap_tick(3, 100, below, 1_000_000_000, &TokenNumber::Token0, 1000, fee), idle);
    assert_eq!(compute_swap_tick(3, 100, above, 1_000_000_000, &TokenNumber::Token0, 1000, fee), idle);
    assert_eq!(compute_swap_tick(3, 100, low, 0, &TokenNumber::Token0, 1000, fee), idle);
    assert_eq!(compute_swap_tick_reverse(3, 100, below, 1_000_000_000, &TokenNumber::Token0, 1000, fee), idle);
    // a bucket whose edge no i32 holds
    assert_eq!(compute_swap_tick(i32::MAX, 100, low, 1_000_000_000, &TokenNumber::Token0, 1000, fee), None);
}

#[test]
fn fee_is_taken_from_the_gross_return() {
    let fee = Decimal::raw(3_000_000_000_000_000);
    assert_eq!(
        compute_swap_tick(0, 100, denominator(), 18687310, &TokenNumber::Token1, 50000, fee),
        Some((50000, 49866, 149, decimal_price("341192830671261379023354547314586466762"), 0))
    );
    // to receive 30000 after the fee, 30090 have to be returned before it
    assert_eq!(
        compute_swap_tick_reverse(0, 100, denominator(), 18687310, &TokenNumber::Token0, 30000, fee),
        Some((30139, 30090, 90, denominator(), 0))
    );
    // a fee rate above one takes more than 128 bits can hold of a large return
    assert_eq!(
        compute_swap_tick(
            0,
            20000,
            denominator(),
            u128::MAX / 4,
            &TokenNumber::Token1,
            u128::MAX / 8,
            Decimal::raw(u128::MAX)
        ),
        None
    );
    assert_eq!(
        compute_swap_tick_reverse(0, 100, denominator(), 18687310, &TokenNumber::Token0, 30000, Decimal::one()),
        None
    );
}

#[test]
fn forward_then_reverse() {
    // offering 10000000000 of token 1 returns 5000000000 of token 0 ...
    let (consumed, return_amount, commission, _, _) = compute_swap_tick(
        0,
        20000u16,
        denominator(),
        10000000000u128,
        &TokenNumber::Token1,
        10000000000u128,
        Decimal::zero(),
    )
    .unwrap();
    assert_eq!((consumed, return_amount, commission), (10000000000, 5000000000, 0));
    // ... and asking for that return calls for the offer again
    let (offer, gross, _, price, _) = compute_swap_tick_reverse(
        0,
        20000u16,
        denominator(),
        10000000000u128,
        &TokenNumber::Token0,
        return_amount - commission,
        Decimal::zero(),
    )
    .unwrap();
    assert_eq!(gross, 5000000000);
    let diff = if offer > consumed { offer - consumed } else { consumed - offer };
    assert!(diff <= 1);
    // the step that asks leaves the price where it was
    assert_eq!(price, denominator());
}

#[test]
fn price_after_a_trade() {
    assert_eq!(
        compute_price(denominator(), 10000000000, 10000000000, &TokenNumber::Token0),
        Some(decimal_price("170141183460469231731687303715884105728"))
    );
    assert_eq!(
        compute_price(denominator(), 10000000000, 10000000000, &TokenNumber::Token1),
        Some(decimal_price("680564733841876926926749214863536422912"))
    );
    assert_eq!(compute_price(denominator(), 0, 5, &TokenNumber::Token1), None);
    assert_eq!(compute_price(U256::zero(), 7, 5, &TokenNumber::Token0), None);
    assert_eq!(compute_price(denominator(), 0, 0, &TokenNumber::Token0), None);
    assert_eq!(compute_price(U256::max_value(), 1, u128::MAX, &TokenNumber::Token1), None);
}

#[test]
fn shifts() {
    let one = U256::from_u128(1);
    assert_eq!(one.checked_shl(0), Some(one));
    assert_eq!(one.checked_shl(128), Some(U256::from_words(1, 0)));
    assert_eq!(one.checked_shl(255), Some(U256::from_words(1u128 << 127, 0)));
    assert_eq!(one.checked_shl(256), None);
    assert_eq!(U256::zero().checked_shl(4000), Some(U256::zero()));
    assert_eq!(U256::from_u128(3).checked_shl(255), None);
    assert_eq!(U256::from_u128(3).checked_shl(254), Some(U256::from_words(3u128 << 126, 0)));
    assert_eq!(U256::from_u128(0xabcd).checked_shl(68), Some(U256::from_words(0, 0xabcd << 68)));
    assert_eq!(U256::from_u128(u128::MAX).checked_shl(64), Some(U256::from_words(u128::MAX >> 64, u128::MAX << 64)));
    let big = U256::from_words(0x1234, 0x5678 << 100);
    assert_eq!(big.shr(0), big);
    assert_eq!(big.shr(100), U256::from_words(0, (0x1234 << 28) + 0x5678));
    assert_eq!(big.shr(128), U256::from_u128(0x1234));
    assert_eq!(big.shr(140), U256::from_u128(1));
    assert_eq!(big.shr(141), U256::zero());
    assert_eq!(big.shr(256), U256::zero());
    assert_eq!(big.shr(u32::MAX), U256::zero());
    assert_eq!(to_uint256(big.shr(77)), to_uint256(big) >> 77);
    assert_eq!(to_uint256(U256::from_words(0, 0x99).checked_shl(201).unwrap()), Uint256::from(0x99u128) << 201);
}

#[test]
fn reverse_of_forward_is_only_close() {
    // against little liquidity the return is coarse: 1000 of token 0 return 3 of token 1,
    // and to be returned 3 calls for 1005
    let price = decimal_price("19172943346844428933139791697894467565");
    let (consumed, return_amount, _, next_price, next_tick) =
        compute_swap_tick(-3, 20000, price, 1000, &TokenNumber::Token0, 1000, Decimal::zero()).unwrap();
    assert_eq!((consumed, return_amount, next_tick), (1000, 3, -3));
    assert!(next_price.lt(&price));
    let (offer, gross, _, _, _) =
        compute_swap_tick_reverse(-3, 20000, price, 1000, &TokenNumber::Token1, 3, Decimal::zero()).unwrap();
    assert_eq!((offer, gross), (1005, 3));
}

#[test]
fn a_tick_is_half_a_basis_point_of_the_square_root() {
    for n in [0, 1, 2, 1000, 65535, 887271, 1048574] {
        let above = get_tick_price_sqrt(-n);
        let below = get_tick_price_sqrt(-n - 1);
        let fall = above.checked_sub(&below).unwrap();
        // the fall is between one part in 20002 and one part in 20001 of the price
        assert!(times(fall, 20002).ge(&above));
        assert!(times(fall, 20001).le(&above));
    }
}
