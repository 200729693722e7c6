use tls_relay::xor::xor_bytes;

#[test]
fn xor_exact_values() {
    let secret = [0xffu8, 0x0f, 0x00, 0xaa];
    let mut msg = [0x12u8, 0x34, 0x56, 0x78];
    xor_bytes(&secret, &mut msg);
    assert_eq!(msg, [0xed, 0x3b, 0x56, 0xd2]);
}

#[test]
fn xor_stops_at_the_shorter_secret() {
    let secret = [0x01u8, 0x02];
    let mut msg = [0x10u8, 0x20, 0x30, 0x40];
    xor_bytes(&secret, &mut msg);
    assert_eq!(msg, [0x11, 0x22, 0x30, 0x40]);
}

#[test]
fn xor_stops_at_the_shorter_message() {
    let secret = [0x01u8, 0x02, 0x03, 0x04];
    let mut msg = [0xf0u8, 0xf0];
    xor_bytes(&secret, &mut msg);
    assert_eq!(msg, [0xf1, 0xf2]);
}

#[test]
fn xor_with_nothing_changes_nothing() {
    let mut msg = [1u8, 2, 3];
    xor_bytes(&[], &mut msg);
    assert_eq!(msg, [1, 2, 3]);
    let mut empty: [u8; 0] = [];
    xor_bytes(&[9, 9], &mut empty);
    assert_eq!(empty, []);
}

#[test]
fn xor_twice_restores_the_message() {
    let secret: Vec<u8> = (0..64u8).map(|i| i.wrapping_mul(37).wrapping_add(11)).collect();
    for len in [0usize, 1, 17, 64, 80] {
        let plain: Vec<u8> = (0..len).map(|i| (i as u8).wrapping_mul(5)).collect();
        let mut msg = plain.clone();
        xor_bytes(&secret, &mut msg);
        if len > 0 {
            assert_ne!(msg, plain);
        }
        xor_bytes(&secret, &mut msg);
        assert_eq!(msg, plain);
    }
}
