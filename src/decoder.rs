//! The decoder: a state machine that takes one received byte at a time.
use crate::crc::{checksum_of, Crc};
use crate::escape::{unescape_spec, Escape};
use crate::frame::{Header, HeaderView};
use crate::{Error, MAX_FRAME_LEN, SYNC};
use vstd::prelude::*;

verus! {

/// Where the decoder stands in a frame. `fed` holds the logical bytes fed to
/// the checksum so far: id, length and payload.
pub enum DecodeView {
    AwaitingSync,
    AwaitingEscape,
    AwaitingId { escape: u8, fed: Seq<u8> },
    AwaitingLen { escape: u8, id: u8, fed: Seq<u8> },
    ReadingPayload { escape: u8, id: u8, len: u8, index: nat, fed: Seq<u8> },
    AwaitingCrc { escape: u8, id: u8, len: u8, fed: Seq<u8>, first: Option<u8> },
    FrameComplete(HeaderView),
}

impl DecodeView {
    /// A payload index stays below the length, and a length never exceeds
    /// `MAX_FRAME_LEN`.
    pub open spec fn wf(self) -> bool {
        match self {
            DecodeView::ReadingPayload { len, index, .. } => index < len && len <= MAX_FRAME_LEN,
            DecodeView::AwaitingCrc { len, .. } => len <= MAX_FRAME_LEN,
            DecodeView::FrameComplete(h) => h.len <= MAX_FRAME_LEN,
            _ => true,
        }
    }
}

/// The state that `byte` leads to from `s`, or the error it raises.
pub open spec fn next_state(s: DecodeView, byte: u8) -> Result<DecodeView, Error> {
    match s {
        DecodeView::AwaitingSync | DecodeView::FrameComplete(_) => {
            if byte == SYNC {
                Ok(DecodeView::AwaitingEscape)
            } else {
                Err(Error::LateSync)
            }
        },
        DecodeView::AwaitingEscape => {
            if byte == SYNC {
                Err(Error::EarlySync)
            } else {
                Ok(DecodeView::AwaitingId { escape: byte, fed: Seq::empty() })
            }
        },
        DecodeView::AwaitingId { escape, fed } => {
            if byte == SYNC {
                Err(Error::EarlySync)
            } else {
                let id = unescape_spec(escape, byte);
                Ok(DecodeView::AwaitingLen { escape, id, fed: fed.push(id) })
            }
        },
        DecodeView::AwaitingLen { escape, id, fed } => {
            if byte == SYNC {
                Err(Error::EarlySync)
            } else {
                let len = unescape_spec(escape, byte);
                if len > MAX_FRAME_LEN {
                    Err(Error::InvalidLen(len))
                } else if len == 0 {
                    Ok(DecodeView::AwaitingCrc { escape, id, len, fed: fed.push(len), first: None })
                } else {
                    Ok(DecodeView::ReadingPayload { escape, id, len, index: 0, fed: fed.push(len) })
                }
            }
        },
        DecodeView::ReadingPayload { escape, id, len, index, fed } => {
            if byte == SYNC {
                Err(Error::EarlySync)
            } else {
                let v = unescape_spec(escape, byte);
                if index + 1 >= len {
                    Ok(DecodeView::AwaitingCrc { escape, id, len, fed: fed.push(v), first: None })
                } else {
                    Ok(
                        DecodeView::ReadingPayload {
                            escape,
                            id,
                            len,
                            index: index + 1,
                            fed: fed.push(v),
                        },
                    )
                }
            }
        },
        DecodeView::AwaitingCrc { escape, id, len, fed, first } => {
            match first {
                None => Ok(DecodeView::AwaitingCrc { escape, id, len, fed, first: Some(byte) }),
                Some(b0) => {
                    if b0 == SYNC || byte == SYNC {
                        Err(Error::EarlySync)
                    } else {
                        let got = seq![unescape_spec(escape, b0), unescape_spec(escape, byte)];
                        let expected = checksum_of(fed);
                        if got == expected {
                            Ok(
                                DecodeView::FrameComplete(
                                    HeaderView { escape, id, len, crc: got },
                                ),
                            )
                        } else {
                            Err(
                                Error::InvalidCrc {
                                    got: [got[0], got[1]],
                                    expected: [expected[0], expected[1]],
                                },
                            )
                        }
                    }
                }
            }
        },
    }
}

/// The state after `byte`: on an error the decoder starts over.
pub open spec fn state_after(s: DecodeView, byte: u8) -> DecodeView {
    match next_state(s, byte) {
        Ok(n) => n,
        Err(_) => DecodeView::AwaitingSync,
    }
}

/// The payload buffer after `byte`: a payload byte is stored, unescaped, at
/// its index.
pub open spec fn out_after(s: DecodeView, byte: u8, out: Seq<u8>) -> Seq<u8> {
    match s {
        DecodeView::ReadingPayload { escape, index, .. } => {
            if byte == SYNC {
                out
            } else {
                out.update(index as int, unescape_spec(escape, byte))
            }
        },
        _ => out,
    }
}

/// What feeding `byte` returns: the header of a frame it completes, nothing
/// while a frame is under way, or the error.
pub open spec fn decode_result(s: DecodeView, byte: u8) -> Result<Option<HeaderView>, Error> {
    match next_state(s, byte) {
        Ok(DecodeView::FrameComplete(h)) => Ok(Some(h)),
        Ok(_) => Ok(None),
        Err(e) => Err(e),
    }
}

/// A decode result, with the header seen through its view.
pub open spec fn result_view(r: Result<Option<Header>, Error>) -> Result<Option<HeaderView>, Error> {
    match r {
        Ok(Some(h)) => Ok(Some(h@)),
        Ok(None) => Ok(None),
        Err(e) => Err(e),
    }
}

/// State machine for decoding a received frame.
#[derive(Clone, Copy)]
pub enum DecoderState {
    /// The next byte must be the sync value.
    AwaitingSync,
    /// The next byte is the frame's escape value.
    AwaitingEscape,
    /// The next byte is the id.
    AwaitingId { escape: Escape, crc: Crc },
    /// The next byte is the payload length.
    AwaitingLen { escape: Escape, id: u8, crc: Crc },
    /// The next byte is the payload byte at `index`.
    ReadingPayload { escape: Escape, id: u8, len: u8, index: usize, crc: Crc },
    /// The next byte is a checksum byte; `byte_buffer` holds the first one
    /// once it arrived.
    AwaitingCrc { escape: Escape, id: u8, len: u8, crc: Crc, byte_buffer: Option<u8> },
    /// A frame was just completed; the next byte must be the sync value of
    /// the next frame.
    FrameComplete(Header),
}

impl View for DecoderState {
    type V = DecodeView;

    open spec fn view(&self) -> DecodeView {
        match *self {
            DecoderState::AwaitingSync => DecodeView::AwaitingSync,
            DecoderState::AwaitingEscape => DecodeView::AwaitingEscape,
            DecoderState::AwaitingId { escape, crc } => DecodeView::AwaitingId {
                escape: escape@,
                fed: crc@,
            },
            DecoderState::AwaitingLen { escape, id, crc } => DecodeView::AwaitingLen {
                escape: escape@,
                id,
                fed: crc@,
            },
            DecoderState::ReadingPayload { escape, id, len, index, crc } => {
                DecodeView::ReadingPayload { escape: escape@, id, len, index: index as nat, fed: crc@ }
            },
            DecoderState::AwaitingCrc { escape, id, len, crc, byte_buffer } => {
                DecodeView::AwaitingCrc { escape: escape@, id, len, fed: crc@, first: byte_buffer }
            },
            DecoderState::FrameComplete(h) => DecodeView::FrameComplete(h@),
        }
    }
}

impl Default for DecoderState {
    fn default() -> (r: DecoderState)
        ensures
            r@ == DecodeView::AwaitingSync,
    {
        DecoderState::AwaitingSync
    }
}

/// Accepts only the sync value.
pub fn verify_sync(encoded: u8) -> (r: Result<u8, Error>)
    ensures
        r == (if encoded == SYNC {
            Ok::<u8, Error>(encoded)
        } else {
            Err(Error::LateSync)
        }),
{
    if encoded != SYNC {
        return Err(Error::LateSync);
    }
    Ok(encoded)
}

/// Undoes the escaping of one field byte and feeds the result to `crc`.
/// The sync value is refused and leaves `crc` as it was.
pub fn unescape_and_update_crc(encoded: u8, escape: &Escape, crc: &mut Crc) -> (r: Result<
    u8,
    Error,
>)
    ensures
        encoded == SYNC ==> r == Err::<u8, Error>(Error::EarlySync) && final(crc)@ == old(crc)@,
        encoded != SYNC ==> r == Ok::<u8, Error>(unescape_spec(escape@, encoded)) && final(crc)@
            == old(crc)@.push(unescape_spec(escape@, encoded)),
{
    match escape.unescape(encoded) {
        Err(e) => Err(e),
        Ok(v) => Ok(crc.update(v)),
    }
}

/// Accepts a length of at most `MAX_FRAME_LEN`.
pub fn verify_len(len: u8) -> (r: Result<u8, Error>)
    ensures
        r == (if len > MAX_FRAME_LEN {
            Err::<u8, Error>(Error::InvalidLen(len))
        } else {
            Ok(len)
        }),
{
    if len > MAX_FRAME_LEN {
        Err(Error::InvalidLen(len))
    } else {
        Ok(len)
    }
}

/// Accepts `checksum` when it equals the checksum of the bytes fed to `crc`.
pub fn verify_checksum(checksum: [u8; 2], crc: Crc) -> (r: Result<[u8; 2], Error>)
    ensures
        checksum@ == checksum_of(crc@) ==> r == Ok::<[u8; 2], Error>(checksum),
        checksum@ != checksum_of(crc@) ==> (r matches Err(Error::InvalidCrc { got, expected })
            && got == checksum && expected@ == checksum_of(crc@)),
{
    let expected = crc.finalize();
    let got = checksum;
    if got[0] == expected[0] && got[1] == expected[1] {
        assert(got@ =~= expected@);
        Ok(checksum)
    } else {
        Err(Error::InvalidCrc { got, expected })
    }
}

impl DecoderState {
    /// Feeds one received byte. On an error the state starts over at
    /// `AwaitingSync`; a completed frame's header is returned.
    pub fn decode_byte_in_place(&mut self, encoded_byte: u8, out: &mut [u8]) -> (r: Result<
        Option<Header>,
        Error,
    >)
        requires
            old(self)@.wf(),
            old(out)@.len() >= MAX_FRAME_LEN,
        ensures
            final(self)@.wf(),
            final(self)@ == state_after(old(self)@, encoded_byte),
            final(out)@ == out_after(old(self)@, encoded_byte, old(out)@),
            result_view(r) == decode_result(old(self)@, encoded_byte),
    {
        let current = *self;
        *self = DecoderState::AwaitingSync;
        match current.calc_updated(encoded_byte, out) {
            Err(e) => Err(e),
            Ok(next) => {
                *self = next;
                match next {
                    DecoderState::FrameComplete(header) => Ok(Some(header)),
                    _ => Ok(None),
                }
            },
        }
    }

    fn calc_updated(self, encoded: u8, out: &mut [u8]) -> (r: Result<DecoderState, Error>)
        requires
            self@.wf(),
            old(out)@.len() >= MAX_FRAME_LEN,
        ensures
            final(out)@ == out_after(self@, encoded, old(out)@),
            r matches Ok(n) ==> next_state(self@, encoded) == Ok::<DecodeView, Error>(n@) && n@.wf(),
            r matches Err(e) ==> next_state(self@, encoded) == Err::<DecodeView, Error>(e),
    {
        match self {
            DecoderState::AwaitingSync | DecoderState::FrameComplete(_) => {
                match verify_sync(encoded) {
                    Err(e) => Err(e),
                    Ok(_) => Ok(DecoderState::AwaitingEscape),
                }
            },
            DecoderState::AwaitingEscape => {
                match Escape::try_from_raw(encoded) {
                    Err(e) => Err(e),
                    Ok(escape) => Ok(DecoderState::AwaitingId { escape, crc: Crc::new() }),
                }
            },
            DecoderState::AwaitingId { escape, crc } => {
                let mut crc = crc;
                match unescape_and_update_crc(encoded, &escape, &mut crc) {
                    Err(e) => Err(e),
                    Ok(id) => Ok(DecoderState::AwaitingLen { escape, id, crc }),
                }
            },
            DecoderState::AwaitingLen { escape, id, crc } => {
                let mut crc = crc;
                match unescape_and_update_crc(encoded, &escape, &mut crc) {
                    Err(e) => Err(e),
                    Ok(len) => match verify_len(len) {
                        Err(e) => Err(e),
                        Ok(len) => {
                            if len == 0 {
                                Ok(
                                    DecoderState::AwaitingCrc {
                                        escape,
                                        id,
                                        len,
                                        crc,
                                        byte_buffer: None,
                                    },
                                )
                            } else {
                                Ok(DecoderState::ReadingPayload { escape, id, len, index: 0, crc })
                            }
                        },
                    },
                }
            },
            DecoderState::ReadingPayload { escape, id, len, index, crc } => {
                let mut crc = crc;
                match unescape_and_update_crc(encoded, &escape, &mut crc) {
                    Err(e) => Err(e),
                    Ok(v) => {
                        out[index] = v;
                        if index + 1 >= len as usize {
                            Ok(
                                DecoderState::AwaitingCrc {
                                    escape,
                                    id,
                                    len,
                                    crc,
                                    byte_buffer: None,
                                },
                            )
                        } else {
                            Ok(
                                DecoderState::ReadingPayload {
                                    escape,
                                    id,
                                    len,
                                    index: index + 1,
                                    crc,
                                },
                            )
                        }
                    },
                }
            },
            DecoderState::AwaitingCrc { escape, id, len, crc, byte_buffer } => {
                match byte_buffer {
                    None => Ok(
                        DecoderState::AwaitingCrc { escape, id, len, crc, byte_buffer: Some(encoded) },
                    ),
                    Some(first) => {
                        match escape.unescape(first) {
                            Err(e) => Err(e),
                            Ok(c0) => match escape.unescape(encoded) {
                                Err(e) => Err(e),
                                Ok(c1) => {
                                    let checksum = [c0, c1];
                                    match verify_checksum(checksum, crc) {
                                        Err(e) => {
                                            proof {
                                                broadcast use vstd::array::group_array_axioms;

                                                let exp = checksum_of(crc@);
                                                assert(checksum =~= [c0, c1]);
                                                if let Error::InvalidCrc { got, expected } = e {
                                                    assert(expected =~= [exp[0], exp[1]]);
                                                }
                                            }
                                            Err(e)
                                        },
                                        Ok(checksum) => {
                                            let header = Header::from_parts(escape, id, len, checksum);
                                            proof {
                                                assert(checksum@ =~= seq![c0, c1]);
                                            }
                                            Ok(DecoderState::FrameComplete(header))
                                        },
                                    }
                                },
                            },
                        }
                    },
                }
            },
        }
    }
}

/// Decodes frames from a stream of received bytes, one byte at a time.
#[derive(Clone, Copy)]
pub struct Decoder {
    state: DecoderState,
}

impl View for Decoder {
    type V = DecodeView;

    closed spec fn view(&self) -> DecodeView {
        self.state@
    }
}

impl Decoder {
    #[verifier::type_invariant]
    spec fn inv(self) -> bool {
        self.state@.wf()
    }

    /// A decoder waiting for the sync byte of a frame.
    pub fn new() -> (r: Decoder)
        ensures
            r@ == DecodeView::AwaitingSync,
    {
        Decoder { state: DecoderState::AwaitingSync }
    }

    /// Feeds one received byte. Payload bytes are written, unescaped, to
    /// `out` at their index; the header of a frame this byte completes is
    /// returned. Any error sets the decoder back to waiting for a sync byte.
    pub fn decode_in_place(&mut self, encoded: u8, out: &mut [u8]) -> (r: Result<
        Option<Header>,
        Error,
    >)
        requires
            old(out)@.len() >= MAX_FRAME_LEN,
        ensures
            final(self)@ == state_after(old(self)@, encoded),
            final(out)@ == out_after(old(self)@, encoded, old(out)@),
            result_view(r) == decode_result(old(self)@, encoded),
    {
        proof {
            use_type_invariant(&*self);
        }
        let mut state = self.state;
        let r = state.decode_byte_in_place(encoded, out);
        *self = Decoder { state };
        r
    }
}

} // verus!
