use protocol::decoder::{Decoder, DecoderState};
use protocol::encoder::{encode_in_place, encoded_len};
use protocol::frame::Header;
use protocol::{Error, HEADER_LEN, MAX_ENCODED_LEN, MAX_FRAME_LEN, SYNC};

fn encode(id: u8, payload: &[u8]) -> (Vec<u8>, Header) {
    let mut out = [0u8; MAX_ENCODED_LEN];
    let header = encode_in_place(id, payload, &mut out);
    (out[..encoded_len(payload)].to_vec(), header)
}

/// Feeds every byte; returns the results and the payload buffer.
fn decode_all(decoder: &mut Decoder, bytes: &[u8]) -> (Vec<Result<Option<Header>, Error>>, Vec<u8>) {
    let mut out = [0u8; MAX_FRAME_LEN as usize];
    let results = bytes.iter().map(|&b| decoder.decode_in_place(b, &mut out)).collect();
    (results, out.to_vec())
}

fn assert_round_trip(id: u8, payload: &[u8]) {
    let (frame, header) = encode(id, payload);
    assert_eq!(frame.len(), payload.len() + HEADER_LEN);
    assert_eq!(frame[0], SYNC);
    assert!(frame[1..].iter().all(|&b| b != SYNC));
    let mut decoder = Decoder::new();
    let (results, out) = decode_all(&mut decoder, &frame);
    let (last, rest) = results.split_last().unwrap();
    for r in rest {
        assert!(matches!(r, Ok(None)));
    }
    let decoded = last.as_ref().unwrap().unwrap();
    assert_eq!(decoded.id(), id);
    assert_eq!(decoded.len() as usize, payload.len());
    assert_eq!(decoded.escape(), header.escape());
    assert_eq!(decoded.crc(), header.crc());
    assert_eq!(&out[..payload.len()], payload);
}

#[test]
fn round_trip_various_payloads() {
    assert_round_trip(0, &[]);
    assert_round_trip(0xFF, &[0xFF]);
    assert_round_trip(7, &[0, 1, 2, 3, 4, 5]);
    assert_round_trip(0x80, &[0x80, 0xFF, 0x00, 0x7F]);
    let all: Vec<u8> = (0..128).collect();
    assert_round_trip(200, &all);
    let high: Vec<u8> = (128..=255).collect();
    assert_round_trip(1, &high);
}

#[test]
fn round_trip_boundary_lengths() {
    assert_round_trip(3, &[]);
    let full: Vec<u8> = (0..128).map(|i| (i * 37 % 256) as u8).collect();
    assert_round_trip(3, &full);
    assert_eq!(encoded_len(&full), MAX_ENCODED_LEN);
    assert_eq!(MAX_ENCODED_LEN, 134);
}

#[test]
fn round_trip_sync_payload() {
    for n in [1usize, 2, 64, 128] {
        let payload = vec![SYNC; n];
        let (frame, header) = encode(SYNC, &payload);
        for i in 0..n {
            assert_eq!(frame[4 + i], header.escape());
        }
        assert_eq!(frame[2], header.escape());
        assert_round_trip(SYNC, &payload);
    }
}

#[test]
fn concrete_frame() {
    let (frame, header) = encode(0x01, &[0x02, 0x03]);
    assert_eq!(header.escape(), 0x00);
    assert_eq!(frame, vec![0xFF, 0x00, 0x01, 0x02, 0x02, 0x03, 0x5D, 0xE1]);
    assert_eq!(header.get_len(), 8);
    let mut decoder = Decoder::new();
    let (results, out) = decode_all(&mut decoder, &frame);
    let header = results[7].as_ref().unwrap().unwrap();
    assert_eq!(header.id(), 1);
    assert_eq!(header.len(), 2);
    assert_eq!(&out[..2], &[2, 3]);
}

#[test]
fn encoded_len_adds_header() {
    assert_eq!(encoded_len(&[]), 6);
    assert_eq!(encoded_len(&[1, 2, 3]), 9);
}

#[test]
fn encode_leaves_rest_of_buffer() {
    let mut out = [0xAAu8; 20];
    encode_in_place(5, &[1, 2], &mut out);
    assert!(out[8..].iter().all(|&b| b == 0xAA));
}

#[test]
fn header_new_matches_encoder() {
    let header = Header::new(9, &[SYNC, 0, 1]);
    let (_, encoded) = encode(9, &[SYNC, 0, 1]);
    assert_eq!(header.id(), 9);
    assert_eq!(header.len(), 3);
    assert_eq!(header.get_len(), 9);
    assert_eq!(header.escape(), encoded.escape());
    assert_eq!(header.crc(), encoded.crc());
    assert_eq!(header.escape(), 2);
}

#[test]
fn late_sync_error() {
    let mut decoder = Decoder::new();
    let mut out = [0u8; 128];
    assert!(matches!(decoder.decode_in_place(0x00, &mut out), Err(Error::LateSync)));
}

#[test]
fn early_sync_error() {
    let mut decoder = Decoder::new();
    let mut out = [0u8; 128];
    assert!(matches!(decoder.decode_in_place(SYNC, &mut out), Ok(None)));
    assert!(matches!(decoder.decode_in_place(SYNC, &mut out), Err(Error::EarlySync)));
    // The error reset the decoder: this byte opens a new frame.
    assert!(matches!(decoder.decode_in_place(SYNC, &mut out), Ok(None)));
    assert!(matches!(decoder.decode_in_place(0x05, &mut out), Ok(None)));
    assert!(matches!(decoder.decode_in_place(SYNC, &mut out), Err(Error::EarlySync)));
}

#[test]
fn invalid_len_error() {
    let mut decoder = Decoder::new();
    let (results, _) = decode_all(&mut decoder, &[SYNC, 0x00, 0x01, 0x81]);
    assert!(matches!(results[3], Err(Error::InvalidLen(129))));
    // The escape value stands for a length of 255.
    let mut decoder = Decoder::new();
    let (results, _) = decode_all(&mut decoder, &[SYNC, 0x07, 0x01, 0x07]);
    assert!(matches!(results[3], Err(Error::InvalidLen(255))));
}

#[test]
fn invalid_crc_error() {
    let mut decoder = Decoder::new();
    let (results, _) = decode_all(&mut decoder, &[0xFF, 0x00, 0x01, 0x02, 0x02, 0x03, 0x5D, 0xE0]);
    match results[7] {
        Err(Error::InvalidCrc { got, expected }) => {
            assert_eq!(got, [0x5D, 0xE0]);
            assert_eq!(expected, [0x5D, 0xE1]);
        }
        _ => panic!("expected a checksum error"),
    }
}

#[test]
fn single_bit_flips_never_decode() {
    for payload in [vec![0x02u8, 0x03], vec![SYNC; 5], (0..40).collect::<Vec<u8>>()] {
        let (frame, _) = encode(0x11, &payload);
        for pos in 4..frame.len() {
            for bit in 0..8 {
                let mut corrupted = frame.clone();
                corrupted[pos] ^= 1 << bit;
                let mut decoder = Decoder::new();
                let (results, _) = decode_all(&mut decoder, &corrupted);
                assert!(results.iter().all(|r| !matches!(r, Ok(Some(_)))));
                assert!(results
                    .iter()
                    .any(|r| matches!(r, Err(Error::InvalidCrc { .. }) | Err(Error::EarlySync))));
            }
        }
    }
}

#[test]
fn resynchronizes_after_error() {
    let (frame, _) = encode(0x42, &[1, SYNC, 3]);
    // Errors of every kind, each followed by a good frame.
    let prefixes: [&[u8]; 4] = [
        &[0x00],
        &[SYNC, SYNC],
        &[SYNC, 0x00, 0x01, 0x90],
        &[0xFF, 0x00, 0x01, 0x02, 0x02, 0x03, 0x5D, 0xE0],
    ];
    for prefix in prefixes {
        let mut decoder = Decoder::new();
        let (results, _) = decode_all(&mut decoder, prefix);
        assert!(results.last().unwrap().is_err());
        let (results, out) = decode_all(&mut decoder, &frame);
        let header = results.last().unwrap().as_ref().unwrap().unwrap();
        assert_eq!(header.id(), 0x42);
        assert_eq!(&out[..3], &[1, SYNC, 3]);
    }
}

#[test]
fn back_to_back_frames() {
    let (first, _) = encode(1, &[10, 20]);
    let (second, _) = encode(2, &[]);
    let mut stream = first.clone();
    stream.extend_from_slice(&second);
    let mut decoder = Decoder::new();
    let (results, _) = decode_all(&mut decoder, &stream);
    assert_eq!(results[first.len() - 1].as_ref().unwrap().unwrap().id(), 1);
    assert_eq!(results[stream.len() - 1].as_ref().unwrap().unwrap().id(), 2);
}

#[test]
fn decoder_state_directly() {
    let (frame, _) = encode(6, &[SYNC]);
    let mut state = DecoderState::default();
    let mut out = [0u8; 128];
    let mut last = None;
    for &b in &frame {
        last = state.decode_byte_in_place(b, &mut out).unwrap();
    }
    assert_eq!(last.unwrap().id(), 6);
    assert_eq!(out[0], SYNC);
}
