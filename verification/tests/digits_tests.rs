use skopje::digits::{parse_u64_dec, u64_to_dec};

#[test]
fn renders_decimal() {
    assert_eq!(u64_to_dec(0), "0");
    assert_eq!(u64_to_dec(7), "7");
    assert_eq!(u64_to_dec(42), "42");
    assert_eq!(u64_to_dec(104857600), "104857600");
    assert_eq!(u64_to_dec(u64::MAX), "18446744073709551615");
}

#[test]
fn parses_what_it_renders() {
    for n in [0u64, 1, 9, 10, 99, 100, 12345678901234567, u64::MAX] {
        assert_eq!(parse_u64_dec(&u64_to_dec(n)), Some(n));
    }
}

#[test]
fn refuses_non_digits() {
    assert_eq!(parse_u64_dec(""), None);
    assert_eq!(parse_u64_dec(" 1"), None);
    assert_eq!(parse_u64_dec("+1"), None);
    assert_eq!(parse_u64_dec("1_000"), None);
    assert_eq!(parse_u64_dec("ten"), None);
}
