use cipo::router::calculate_watt_hours;

// One unit of the currency is 1_000_000_000_000 piconero, and energy is
// counted in hundredths of a watt-hour.

#[test]
fn test_one_xmr() {
    let actual: i64 = calculate_watt_hours(1_000_000_000_000, 1_000_000_000_000);
    let expected: i64 = 100_000;

    assert_eq!(actual, expected);
}

#[test]
fn test_two_xmr() {
    let actual: i64 = calculate_watt_hours(1_000_000_000_000, 2_000_000_000_000);
    let expected: i64 = 200_000;

    assert_eq!(actual, expected);
}

#[test]
fn test_half_price() {
    let actual: i64 = calculate_watt_hours(500_000_000_000, 1_000_000_000_000);
    let expected: i64 = 200_000;

    assert_eq!(actual, expected);
}

#[test]
fn half_a_unit_buys_five_hundred_watt_hours() {
    assert_eq!(calculate_watt_hours(1_000_000_000_000, 500_000_000_000), 50_000);
}

#[test]
fn a_fraction_of_a_hundredth_is_dropped() {
    // 1 piconero at 3 piconero the kilowatt-hour: 33333.33.. hundredths.
    assert_eq!(calculate_watt_hours(3, 1), 33_333);
    assert_eq!(calculate_watt_hours(100_001, 1), 0);
    assert_eq!(calculate_watt_hours(100_000, 1), 1);
}

#[test]
fn nothing_buys_nothing() {
    assert_eq!(calculate_watt_hours(1_000_000_000_000, 0), 0);
    assert_eq!(calculate_watt_hours(0, 0), 0);
}

#[test]
fn the_largest_credit_is_never_exceeded() {
    assert_eq!(calculate_watt_hours(1, u64::MAX), i64::MAX);
    assert_eq!(calculate_watt_hours(0, 1), i64::MAX);
    // 92_233_720_368_547 * 100_000 is just below the limit,
    // 92_233_720_368_548 * 100_000 just above.
    assert_eq!(calculate_watt_hours(1, 92_233_720_368_547), 9_223_372_036_854_700_000);
    assert_eq!(calculate_watt_hours(1, 92_233_720_368_548), i64::MAX);
}

#[test]
fn the_conversion_has_no_memory() {
    let first: i64 = calculate_watt_hours(250_000_000_000, 123_456_789);
    let second: i64 = calculate_watt_hours(250_000_000_000, 123_456_789);
    assert_eq!(first, second);
    assert_eq!(first, 49);
}

#[test]
fn the_largest_price_sells_nothing() {
    assert_eq!(calculate_watt_hours(u128::MAX, u64::MAX), 0);
    assert_eq!(calculate_watt_hours(u128::MAX, 1), 0);
    // Just out of reach, and just within it.
    assert_eq!(calculate_watt_hours(100_000 * (u64::MAX as u128) + 1, u64::MAX), 0);
    assert_eq!(calculate_watt_hours(100_000 * (u64::MAX as u128), u64::MAX), 1);
}
