use electrack::display::format_price_milli;

#[test]
fn three_decimal_places_always() {
    assert_eq!(format_price_milli(0), "0.000");
    assert_eq!(format_price_milli(200), "0.200");
    assert_eq!(format_price_milli(5), "0.005");
    assert_eq!(format_price_milli(1000), "1.000");
    assert_eq!(format_price_milli(12_345), "12.345");
    assert_eq!(format_price_milli(1_234_567), "1234.567");
}

#[test]
fn negative_prices_carry_a_sign() {
    assert_eq!(format_price_milli(-5), "-0.005");
    assert_eq!(format_price_milli(-12_345), "-12.345");
}
