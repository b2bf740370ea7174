use yield_vault::identity::Identity;

fn key(n: u8) -> Identity {
    Identity::new([n; 32])
}

#[test]
fn identity_keeps_its_bytes() {
    let mut bytes = [0u8; 32];
    for i in 0..32 {
        bytes[i] = i as u8;
    }
    assert_eq!(Identity::new(bytes).to_bytes(), bytes);
}

#[test]
fn same_bytes_same_identity() {
    assert!(key(7) == key(7));
    assert_eq!(key(7), Identity::new([7; 32]));
}

#[test]
fn one_byte_apart_is_another_identity() {
    let mut bytes = [7u8; 32];
    bytes[31] = 8;
    assert!(key(7) != Identity::new(bytes));
    let mut bytes = [7u8; 32];
    bytes[0] = 8;
    assert!(key(7) != Identity::new(bytes));
}
