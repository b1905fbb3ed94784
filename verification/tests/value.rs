use windy::Int;

fn n(v: i64) -> Int {
    Int::from_i64(v)
}

#[test]
fn arithmetic_is_exact() {
    assert_eq!(n(3).plus(&n(4)), n(7));
    assert_eq!(n(3).minus(&n(4)), n(-1));
    assert_eq!(n(-6).times(&n(7)), n(-42));
    let big = n(i64::MAX).times(&n(i64::MAX));
    assert_eq!(big.to_decimal(), "85070591730234615847396907784232501249");
    assert_eq!(big.to_i64(), None);
}

#[test]
fn floor_division_rounds_down() {
    assert_eq!(n(7).div_floor(&n(2)), n(3));
    assert_eq!(n(-7).div_floor(&n(2)), n(-4));
    assert_eq!(n(7).div_floor(&n(-2)), n(-4));
    assert_eq!(n(-7).div_floor(&n(-2)), n(3));
    assert_eq!(n(-7).mod_floor(&n(2)), n(1));
    assert_eq!(n(7).mod_floor(&n(-2)), n(-1));
}

#[test]
fn conversions_and_text() {
    assert_eq!(n(-1).to_u32(), None);
    assert_eq!(n(4294967295).to_u32(), Some(u32::MAX));
    assert_eq!(n(4294967296).to_u32(), None);
    assert_eq!(n(-42).to_decimal(), "-42");
    assert_eq!(n(0).to_decimal(), "0");
    assert!(n(0).is_zero());
    assert!(n(2).gt(&n(1)));
    assert!(!n(1).gt(&n(1)));
}

#[test]
fn decimal_parsing() {
    assert_eq!(Int::parse_decimal("42"), Some(n(42)));
    assert_eq!(Int::parse_decimal("-42"), Some(n(-42)));
    assert_eq!(Int::parse_decimal("+42"), Some(n(42)));
    assert_eq!(Int::parse_decimal("1_000"), Some(n(1000)));
    assert_eq!(Int::parse_decimal("_1"), None);
    assert_eq!(Int::parse_decimal("-+1"), None);
    assert_eq!(Int::parse_decimal("++1"), None);
    assert_eq!(Int::parse_decimal(""), None);
    assert_eq!(Int::parse_decimal("4a"), None);
}
