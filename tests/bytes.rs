use protocol::crc::Crc;
use protocol::escape::Escape;
use protocol::special_bytes::{ne_start, CrcByte, DataByte, LengthByte, MagicByte, StartByte};
use protocol::{Error, SYNC};

#[test]
fn escape_value_rules() {
    assert!(matches!(Escape::try_from_raw(SYNC), Err(Error::EarlySync)));
    let e = Escape::try_from_raw(4).unwrap();
    assert_eq!(u8::from(e), 4);
    assert_eq!(e.escape_byte(SYNC), 4);
    assert_eq!(e.escape_byte(9), 9);
    assert_eq!(e.unescape(4).unwrap(), SYNC);
    assert_eq!(e.unescape(9).unwrap(), 9);
    assert!(matches!(e.unescape(SYNC), Err(Error::EarlySync)));
    let mut bytes = [SYNC, 1, SYNC, 200];
    e.escape_in_place(&mut bytes);
    assert_eq!(bytes, [4, 1, 4, 200]);
}

#[test]
fn start_byte() {
    assert!(StartByte::new_decode(SYNC).is_ok());
    assert!(matches!(StartByte::new_decode(0), Err(Error::LateSync)));
    let s = StartByte::new_encode();
    assert_eq!(s.value(), SYNC);
    assert!(s == SYNC);
    assert!(s != 3u8);
    assert!(ne_start(3).is_ok());
    assert!(matches!(ne_start(SYNC), Err(Error::EarlySync)));
}

#[test]
fn magic_byte() {
    let m = MagicByte::new_encode(&[0, 1, SYNC]);
    assert_eq!(m.encode_byte(SYNC), 2);
    assert_eq!(m.encode_byte(7), 7);
    assert_eq!(m.decode_byte(2), SYNC);
    assert_eq!(m.decode_byte(7), 7);
    assert!(matches!(MagicByte::new_decode(SYNC), Err(Error::EarlySync)));
    let d = MagicByte::new_decode(9).unwrap();
    assert_eq!(d.decode_byte(9), SYNC);
}

#[test]
fn length_and_data_bytes() {
    let m = MagicByte::new_decode(0).unwrap();
    let mut crc = Crc::new();
    let id = DataByte::new_decode(m, 1, &mut crc).unwrap();
    assert_eq!(u8::from(id), 1);
    let len = LengthByte::new_decode(m, 2, &mut crc).unwrap();
    assert_eq!(u8::from(len), 2);
    let a: u8 = DataByte::new_decode(m, 2, &mut crc).unwrap().into();
    let b: u8 = DataByte::new_decode(m, 3, &mut crc).unwrap().into();
    assert_eq!((a, b), (2, 3));
    assert!(matches!(DataByte::new_decode(m, SYNC, &mut crc), Err(Error::EarlySync)));
    assert!(CrcByte::new_decode(crc, m, [0x5D, 0xE1]).is_ok());
    assert!(matches!(CrcByte::new_decode(crc, m, [0x5D, 0xE2]), Err(Error::InvalidCrc { .. })));
    assert!(matches!(CrcByte::new_decode(crc, m, [SYNC, 0xE1]), Err(Error::EarlySync)));

    let mut crc = Crc::new();
    assert!(matches!(LengthByte::new_decode(m, 129, &mut crc), Err(Error::InvalidLen(129))));
    assert!(matches!(LengthByte::new_decode(m, 0, &mut crc), Err(Error::InvalidLen(SYNC))));
    assert!(matches!(LengthByte::new_decode(m, SYNC, &mut crc), Err(Error::EarlySync)));
}
