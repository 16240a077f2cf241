use slipstream::double::rounded_product;

#[test]
fn products_are_those_of_doubles() {
    let mut seed: u64 = 7;
    let mut tried = 0;
    for _ in 0..200_000 {
        seed = seed.wrapping_mul(6364136223846793005).wrapping_add(1442695040888963407);
        let n = seed >> (seed % 60);
        seed = seed.wrapping_mul(6364136223846793005).wrapping_add(1442695040888963407);
        let p = f64::from_bits((seed % (2 << 52)) + ((1023 - 60 + seed % 100) << 52));
        let product = (n as f64 * p).round();
        if product < 18446744073709551616.0 {
            assert_eq!(rounded_product(n, p.to_bits()), product as u64, "{} {}", n, p);
            tried += 1;
        }
    }
    assert!(tried > 50_000);
}

#[test]
fn ties_go_to_the_even_double() {
    let two53 = 1u64 << 53;
    for n in [two53 - 1, two53, two53 + 1, two53 + 2, two53 + 3, two53 + 5, u64::MAX - 2048] {
        assert_eq!(rounded_product(n, 1.0f64.to_bits()), n as f64 as u64);
    }
    assert_eq!(rounded_product(two53 + 3, 1.0f64.to_bits()), two53 + 4);
    assert_eq!(rounded_product(3, 0.5f64.to_bits()), 2);
    assert_eq!(rounded_product(1, 0.49999999999999994f64.to_bits()), 0);
}

#[test]
fn product_with_negative_or_no_number_is_nothing() {
    for p in [-1.0f64, -0.0, f64::NAN, f64::NEG_INFINITY, 0.0, 5e-324] {
        assert_eq!(rounded_product(12345, p.to_bits()), 0);
    }
    assert_eq!(rounded_product(0, f64::INFINITY.to_bits()), 0);
    assert_eq!(rounded_product(0, f64::MAX.to_bits()), 0);
    assert_eq!(rounded_product(2, 4503599627370496.0f64.to_bits()), 9007199254740992);
    assert_eq!(rounded_product(3, 1152921504606846976.0f64.to_bits()), 3458764513820540928);
}
