use slipstream::pubkey::Pubkey;

const WSOL: &str = "So11111111111111111111111111111111111111112";

#[test]
fn zero_key_is_all_ones() {
    let key = Pubkey::from_text("11111111111111111111111111111111").unwrap();
    assert_eq!(key.bytes, [0; 32]);
    assert_eq!(key.to_text(), "11111111111111111111111111111111");
}

#[test]
fn largest_key_has_a_text() {
    let key = Pubkey { bytes: [255; 32] };
    assert_eq!(key.to_text(), "JEKNVnkbo3jma5nREBBJCDoXFVeKkD56V3xKrvRmWxFG");
    assert!(Pubkey::from_text("JEKNVnkbo3jma5nREBBJCDoXFVeKkD56V3xKrvRmWxFG").unwrap().same(&key));
    assert!(Pubkey::from_text("JEKNVnkbo3jma5nREBBJCDoXFVeKkD56V3xKrvRmWxFH").is_none());
}

#[test]
fn texts_read_back() {
    for i in 0..=255u8 {
        let mut bytes = [i; 32];
        bytes[0] = i.wrapping_mul(7);
        bytes[31] = 255 - i;
        let key = Pubkey { bytes };
        assert!(Pubkey::from_text(&key.to_text()).unwrap().same(&key));
    }
    let mut two = [0; 32];
    two[31] = 1;
    assert_eq!(Pubkey::from_text("11111111111111111111111111111112").unwrap().bytes, two);
    assert_eq!(Pubkey::from_text(WSOL).unwrap().to_text(), WSOL);
}

#[test]
fn other_texts_are_no_keys() {
    for s in ["", "1", "invalid_key", "1111111111111111111111111111111", "111111111111111111111111111111111",
        "So1111111111111111111111111111111111111111l", "So111111111111111111111111111111111111111120",
        " So11111111111111111111111111111111111111112", "1111111111111111111111111111111\u{e9}"]
    {
        assert!(Pubkey::from_text(s).is_none(), "{}", s);
    }
}

#[test]
fn same_compares_all_bytes() {
    let a = Pubkey { bytes: [1; 32] };
    let mut b = a;
    assert!(a.same(&b));
    b.bytes[31] = 2;
    assert!(!a.same(&b));
}
