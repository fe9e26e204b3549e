use protocol::escape::{EscapeState, MAX_BYTE_KINDS};
use protocol::finder::{find_escape, find_magic_byte};
use rand::Rng;

#[test]
fn escape_test_find_escape() {
    let mut rng = rand::rng();

    // Create some data bytes.
    let mut bytes = [0u8; MAX_BYTE_KINDS as usize];
    for byte in bytes.iter_mut() {
        *byte = rng.random::<u8>();
    }

    // Find the escape character.
    let escape: u8 = {
        let mut escape = EscapeState::new();
        escape.digest(&bytes);
        escape.finalize().into()
    };

    // Test that the escape byte is indeed not part of our data.
    for byte in bytes {
        assert_ne!(escape, byte);
    }
}

#[test]
fn finder_test_find_escape() {
    let mut rng = rand::rng();

    // Create some data bytes.
    let mut bytes = [0u8; 128];
    for byte in bytes.iter_mut() {
        *byte = rng.random::<u8>();
    }

    // Find the escape character.
    let escape = find_escape(&bytes);
    // Test that the escape byte is indeed not part of our data.
    for byte in bytes {
        assert_ne!(escape, byte);
    }
}

#[test]
fn test_find_magic_byte() {
    let mut rng = rand::rng();

    // Create some data bytes.
    let mut bytes = [0u8; 128];
    for byte in bytes.iter_mut() {
        *byte = rng.random::<u8>();
    }

    // Find the magic byte.
    let magic_byte = find_magic_byte(&bytes);
    // Test that the magic byte is indeed not part of our data.
    for byte in bytes {
        assert_ne!(magic_byte, byte);
    }
}

#[test]
fn find_escape_picks_lowest_free_value() {
    assert_eq!(find_escape(&[]), 0);
    assert_eq!(find_escape(&[0, 1, 2]), 3);
    assert_eq!(find_escape(&[1, 0, 5, 0]), 2);
    assert_eq!(find_escape(&[200, 255, 128]), 0);
    let all: Vec<u8> = (0..128).collect();
    assert_eq!(find_escape(&all), 128);
    assert_eq!(find_magic_byte(&all), 128);
    let mut reversed = all.clone();
    reversed.reverse();
    reversed[0] = 0;
    assert_eq!(find_magic_byte(&reversed), 127);
}

#[test]
fn escape_state_picks_lowest_free_value() {
    let mut state = EscapeState::new();
    state.digest(&[]);
    assert_eq!(u8::from(state.finalize()), 0);

    let mut state = EscapeState::new();
    state.digest(&[0, 1]);
    state.digest(&[2, 200, 255]);
    assert_eq!(u8::from(state.finalize()), 3);

    let all: Vec<u8> = (0..MAX_BYTE_KINDS).collect();
    let mut state = EscapeState::new();
    state.digest(&all);
    assert_eq!(u8::from(state.finalize()), MAX_BYTE_KINDS);
    assert_eq!(MAX_BYTE_KINDS, 132);
}

#[test]
fn escape_state_exclusive_for_full_frames() {
    // Many distinct large values do not count towards the limit.
    let mut bytes: Vec<u8> = (0..131).collect();
    bytes.push(133);
    let mut state = EscapeState::new();
    state.digest(&bytes);
    let escape = u8::from(state.finalize());
    assert_eq!(escape, 131);
    assert!(!bytes.contains(&escape));
}
