use esphub::config::{aes_key_or_default, network_seed, port_or_default, DEFAULT_AES_KEY};

#[test]
fn configured_port_is_used() {
    assert_eq!(port_or_default(Some("9000")), 9000);
    assert_eq!(port_or_default(Some("+80")), 80);
    assert_eq!(port_or_default(Some("65535")), 65535);
}

#[test]
fn unusable_port_falls_back_to_8080() {
    assert_eq!(port_or_default(None), 8080);
    assert_eq!(port_or_default(Some("")), 8080);
    assert_eq!(port_or_default(Some("http")), 8080);
    assert_eq!(port_or_default(Some("65536")), 8080);
    assert_eq!(port_or_default(Some("-1")), 8080);
    assert_eq!(port_or_default(Some(" 80")), 8080);
}

#[test]
fn configured_key_is_decoded() {
    let key = aes_key_or_default(Some("000102030405060708090a0B0c0D0e0F"));
    assert_eq!(key, [0, 1, 2, 3, 4, 5, 6, 7, 8, 9, 10, 11, 12, 13, 14, 15]);
}

#[test]
fn unusable_key_falls_back_to_default() {
    assert_eq!(aes_key_or_default(None), DEFAULT_AES_KEY);
    assert_eq!(aes_key_or_default(Some("0011")), DEFAULT_AES_KEY);
    assert_eq!(aes_key_or_default(Some("zz0102030405060708090a0b0c0d0e0f")), DEFAULT_AES_KEY);
    assert_eq!(
        DEFAULT_AES_KEY,
        [0x72, 0x08, 0xe0, 0xeb, 0x70, 0xb1, 0xa8, 0x87, 0x29, 0x9f, 0x66, 0x94, 0xe9, 0x12, 0x4d, 0xc1]
    );
}

#[test]
fn seed_puts_the_first_word_high() {
    assert_eq!(network_seed(1, 2), 0x0000_0001_0000_0002);
    assert_eq!(network_seed(0xffff_ffff, 0xffff_ffff), u64::MAX);
}
