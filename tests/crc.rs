use protocol::crc::Crc;

#[test]
fn crc_arc_check_value() {
    let mut crc = Crc::new();
    crc.digest(b"123456789");
    assert_eq!(crc.finalize(), [0xBB, 0x3D]);
}

#[test]
fn crc_update_matches_digest() {
    let mut a = Crc::new();
    assert_eq!(a.update(1), 1);
    assert_eq!(a.update(2), 2);
    a.digest(&[2, 3]);
    let mut b = Crc::new();
    b.digest(&[1, 2, 2, 3]);
    assert_eq!(a.finalize(), b.finalize());
    assert_eq!(b.finalize(), [0x5D, 0xE1]);
}

#[test]
fn crc_of_nothing_is_zero() {
    assert_eq!(Crc::new().finalize(), [0, 0]);
}
