//! Byte-stuffing frame protocol for a point-to-point serial link.
//!
//! A package of up to 128 payload bytes and one identifier byte travels in a
//! frame laid out as
//!
//! |       | SYNC | ESC | ID | LEN | PAYLOAD  | CRC |
//! | ----- | ---- | --- | -- | --- | -------- | --- |
//! | bytes |  1   |  1  | 1  |  1  | max(128) |  2  |
//!
//! where `SYNC` opens the frame, `ESC` is an escape value picked for this
//! frame, `ID` is free for the caller, `LEN` counts the payload bytes and
//! `CRC` is a CRC-16/ARC checksum over `ID`, `LEN` and `PAYLOAD`, big-endian.
//! Every literal `SYNC` value inside `ID`, `LEN`, `PAYLOAD` and `CRC` travels
//! as `ESC`, so that `SYNC` on the wire always starts a new frame.
use vstd::prelude::*;

mod bits;
pub mod codec;
pub mod crc;
pub mod decoder;
pub mod encoder;
pub mod escape;
pub mod finder;
pub mod frame;
pub mod special_bytes;

pub use crc::Crc;
pub use decoder::{Decoder, DecoderState};
pub use encoder::{encode_in_place, encoded_len};
pub use escape::{Escape, EscapeState};
pub use finder::{find_escape, find_magic_byte};
pub use frame::Header;
pub use special_bytes::{CrcByte, DataByte, LengthByte, MagicByte, StartByte};

verus! {

/// The byte that opens every frame.
pub const SYNC: u8 = 0xFF;

/// The largest number of payload bytes in one frame.
pub const MAX_FRAME_LEN: u8 = 0x80;

/// Bytes a frame carries besides its payload: sync, escape, id, length and
/// two checksum bytes.
pub const HEADER_LEN: usize = 6;

/// The largest number of bytes one encoded frame takes on the wire.
pub const MAX_ENCODED_LEN: usize = MAX_FRAME_LEN as usize + HEADER_LEN;

/// What can go wrong while a frame is decoded.
#[derive(Clone, Copy, Debug, PartialEq, Eq)]
pub enum Error {
    /// The sync value stood where only escaped field bytes may stand.
    EarlySync,
    /// A byte that had to be the sync value was not.
    LateSync,
    /// The decoded length exceeds [`MAX_FRAME_LEN`].
    InvalidLen(u8),
    /// The received checksum differs from the one computed over the frame.
    InvalidCrc { got: [u8; 2], expected: [u8; 2] },
}

} // verus!
