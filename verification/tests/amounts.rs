use payments_engine::engine::amount::{Amount, LIMIT, SCALE, WHOLE_LIMIT};

fn units(text: &str) -> Option<i128> {
    Amount::from_str(text).map(|a| a.units())
}

#[test]
fn amount_reads_whole_and_fraction() {
    assert_eq!(units("1.5"), Some(150_000_000));
    assert_eq!(units("37.0"), Some(3_700_000_000));
    assert_eq!(units("0.12345"), Some(12_345_000));
    assert_eq!(units("20"), Some(2_000_000_000));
    assert_eq!(units("0"), Some(0));
    assert_eq!(units("007.50"), Some(750_000_000));
    assert_eq!(units("0.00000001"), Some(1));
}

#[test]
fn amount_reads_a_point_with_digits_on_one_side() {
    assert_eq!(units(".5"), Some(50_000_000));
    assert_eq!(units("5."), Some(500_000_000));
    assert_eq!(units("."), None);
}

#[test]
fn amount_reads_a_sign() {
    assert_eq!(units("+5"), Some(500_000_000));
    assert_eq!(units("-5"), Some(-500_000_000));
    assert_eq!(units("-0.5"), Some(-50_000_000));
    assert_eq!(units("-0"), Some(0));
    assert_eq!(units("+"), None);
    assert_eq!(units("-"), None);
    assert_eq!(units("+-5"), None);
    assert_eq!(units("5-"), None);
}

#[test]
fn amount_refuses_what_is_no_decimal_number() {
    assert_eq!(units(""), None);
    assert_eq!(units("abc"), None);
    assert_eq!(units("1e5"), None);
    assert_eq!(units("inf"), None);
    assert_eq!(units("NaN"), None);
    assert_eq!(units("1.2.3"), None);
    assert_eq!(units("1,5"), None);
    assert_eq!(units(" 1"), None);
    assert_eq!(units("1 "), None);
    assert_eq!(units("1.5x"), None);
    assert_eq!(units("x1.5"), None);
    assert_eq!(units("１"), None);
}

#[test]
fn amount_drops_digits_after_the_eighth_place() {
    assert_eq!(units("0.123456789"), Some(12_345_678));
    assert_eq!(units("0.000000019"), Some(1));
    assert_eq!(units("0.000000009"), Some(0));
    assert_eq!(units("-0.999999999"), Some(-99_999_999));
    assert_eq!(units("0.12345678x"), None);
    assert_eq!(units("0.123456789x"), None);
}

#[test]
fn amount_is_bounded_by_the_limit() {
    assert_eq!(SCALE, 100_000_000);
    assert_eq!(WHOLE_LIMIT * SCALE, LIMIT);
    assert_eq!(units("10000000000000000000000000000"), Some(LIMIT));
    assert_eq!(units("-10000000000000000000000000000"), Some(-LIMIT));
    assert_eq!(units("10000000000000000000000000000.00000000"), Some(LIMIT));
    assert_eq!(units("10000000000000000000000000000.00000001"), None);
    assert_eq!(units("10000000000000000000000000001"), None);
    assert_eq!(units("9999999999999999999999999999.99999999"), Some(LIMIT - 1));
    assert_eq!(
        units("99999999999999999999999999999999999999999999999999999999999999999999"),
        None
    );
    assert_eq!(
        units("99999999999999999999999999999999999999999999999999999999999999999999x"),
        None
    );
}

#[test]
fn truncate_rounds_half_up_at_the_fourth_place() {
    let rounded = |text: &str| Amount::from_str(text).unwrap().truncate().units();
    assert_eq!(rounded("0.12345"), 12_350_000);
    assert_eq!(rounded("0.12344"), 12_340_000);
    assert_eq!(rounded("0.12344999"), 12_340_000);
    assert_eq!(rounded("0.1234"), 12_340_000);
    assert_eq!(rounded("0.00005"), 10_000);
    assert_eq!(rounded("0.00004999"), 0);
    assert_eq!(rounded("99.99995"), 10_000_000_000);
    assert_eq!(rounded("0"), 0);
}

#[test]
fn truncate_rounds_a_negative_half_towards_zero() {
    let rounded = |text: &str| Amount::from_str(text).unwrap().truncate().units();
    assert_eq!(rounded("-0.12345"), -12_340_000);
    assert_eq!(rounded("-0.12345001"), -12_350_000);
    assert_eq!(rounded("-0.12344"), -12_340_000);
    assert_eq!(rounded("-0.12346"), -12_350_000);
    assert_eq!(rounded("-0.00005"), 0);
    assert_eq!(rounded("-0.00005001"), -10_000);
    assert_eq!(rounded("-1"), -100_000_000);
}

#[test]
fn truncate_at_the_ends_of_its_range() {
    let high = Amount::from_units(i128::MAX - 10_000).truncate().units();
    assert_eq!(high % 10_000, 0);
    assert!((high - (i128::MAX - 10_000)).abs() <= 5_000);
    let low = Amount::from_units(i128::MIN + 10_000).truncate().units();
    assert_eq!(low % 10_000, 0);
    assert!((low - (i128::MIN + 10_000)).abs() <= 5_000);
}

#[test]
fn amount_is_written_without_needless_zeros() {
    let text = |units: i128| Amount::from_units(units).to_text();
    assert_eq!(text(0), "0");
    assert_eq!(text(150_000_000), "1.5");
    assert_eq!(text(2_000_000_000), "20");
    assert_eq!(text(12_350_000), "0.1235");
    assert_eq!(text(-150_000_000), "-1.5");
    assert_eq!(text(1), "0.00000001");
    assert_eq!(text(-1), "-0.00000001");
    assert_eq!(text(10_001_000_000), "100.01");
    assert_eq!(text(10_000_000), "0.1");
    assert_eq!(text(100_000_000), "1");
    assert_eq!(text(LIMIT), "10000000000000000000000000000");
    assert_eq!(text(i128::MAX), "1701411834604692317316873037158.84105727");
    assert_eq!(text(i128::MIN), "-1701411834604692317316873037158.84105728");
}

#[test]
fn amount_written_and_read_again_is_the_same() {
    for units in [
        0,
        1,
        -1,
        9,
        10,
        99_999_999,
        100_000_000,
        100_000_001,
        123_456_789_012,
        -123_456_789_012,
        50_000,
        -50_000,
        LIMIT,
        -LIMIT,
        LIMIT - 1,
    ] {
        let written = Amount::from_units(units).to_text();
        assert_eq!(Amount::from_str(&written), Some(Amount::from_units(units)));
    }
}

#[test]
fn amount_from_chars_agrees_with_from_str() {
    for text in ["1.5", "-2", "", "x", "0.00005", "+.5"] {
        let chars: Vec<char> = text.chars().collect();
        assert_eq!(Amount::from_chars(&chars), Amount::from_str(text));
    }
    assert_eq!(Amount::zero().units(), 0);
}
