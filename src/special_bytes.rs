//! Typed field bytes: each one is made by checking and decoding one received
//! byte of its field, or by choosing its value for a frame to send.
use crate::crc::{checksum_of, Crc};
use crate::escape::{ensure_not_sync, escape_spec, lowest_absent, unescape_spec};
use crate::finder::find_magic_byte;
use crate::{Error, MAX_FRAME_LEN, SYNC};
use vstd::prelude::*;

verus! {

/// The sync byte that opens a frame.
#[derive(Clone, Copy, Debug)]
pub struct StartByte {}

impl StartByte {
    /// The sync byte of a frame to send.
    pub fn new_encode() -> (r: StartByte) {
        StartByte {  }
    }

    /// Accepts a received byte as the start of a frame only if it is the
    /// sync value.
    pub fn new_decode(byte: u8) -> (r: Result<StartByte, Error>)
        ensures
            byte == SYNC <==> r is Ok,
            r matches Err(e) ==> e == Error::LateSync,
    {
        if byte != SYNC {
            return Err(Error::LateSync);
        }
        Ok(StartByte {  })
    }

    /// The value this byte has on the wire.
    pub fn value(&self) -> (r: u8)
        ensures
            r == SYNC,
    {
        SYNC
    }
}

impl PartialEq<u8> for StartByte {
    fn eq(&self, other: &u8) -> (r: bool)
        ensures
            r == (*other == SYNC),
    {
        *other == SYNC
    }
}

impl vstd::std_specs::cmp::PartialEqSpecImpl<u8> for StartByte {
    open spec fn obeys_eq_spec() -> bool {
        true
    }

    open spec fn eq_spec(&self, other: &u8) -> bool {
        *other == SYNC
    }
}

/// Refuses the sync value, which no escaped field byte may be.
pub fn ne_start(byte: u8) -> (r: Result<(), Error>)
    ensures
        r == (if byte == SYNC {
            Err::<(), Error>(Error::EarlySync)
        } else {
            Ok(())
        }),
{
    ensure_not_sync(byte)
}

/// The escape value of a frame, seen as a field byte; never the sync value.
#[derive(Clone, Copy, Debug)]
pub struct MagicByte {
    value: u8,
}

impl View for MagicByte {
    type V = u8;

    closed spec fn view(&self) -> u8 {
        self.value
    }
}

impl MagicByte {
    #[verifier::type_invariant]
    spec fn inv(self) -> bool {
        self.value != SYNC
    }

    /// The escape value for a frame whose escaped bytes are `data`: the
    /// least value below `MAX_FRAME_LEN` that `data` does not hold, or
    /// `MAX_FRAME_LEN` if it holds them all.
    pub fn new_encode(data: &[u8]) -> (r: MagicByte)
        requires
            data@.len() <= MAX_FRAME_LEN,
        ensures
            r@ == lowest_absent(data@, MAX_FRAME_LEN as nat),
            !data@.contains(r@),
    {
        MagicByte { value: find_magic_byte(data) }
    }

    /// Takes a received byte as the frame's escape value; the sync value is
    /// refused.
    pub fn new_decode(encoded_byte: u8) -> (r: Result<MagicByte, Error>)
        ensures
            encoded_byte == SYNC <==> r is Err,
            r matches Err(e) ==> e == Error::EarlySync,
            r matches Ok(m) ==> m@ == encoded_byte,
    {
        match ne_start(encoded_byte) {
            Err(e) => Err(e),
            Ok(()) => Ok(MagicByte { value: encoded_byte }),
        }
    }

    /// A byte as it travels on the wire: the sync value becomes the escape
    /// value.
    pub fn encode_byte(&self, byte: u8) -> (r: u8)
        ensures
            r == escape_spec(self@, byte),
    {
        if byte == SYNC {
            self.value
        } else {
            byte
        }
    }

    /// A received byte with the escaping undone: the escape value becomes
    /// the sync value.
    pub fn decode_byte(&self, encoded_byte: u8) -> (r: u8)
        ensures
            r == unescape_spec(self@, encoded_byte),
    {
        if encoded_byte == self.value {
            SYNC
        } else {
            encoded_byte
        }
    }
}

/// A received length field byte, unescaped; at most `MAX_FRAME_LEN`.
#[derive(Clone, Copy, Debug)]
pub struct LengthByte {
    value: u8,
}

impl View for LengthByte {
    type V = u8;

    closed spec fn view(&self) -> u8 {
        self.value
    }
}

impl LengthByte {
    /// Checks and unescapes a received length byte and feeds the length to
    /// `crc`. The sync value is refused and leaves `crc` as it was; a length
    /// above `MAX_FRAME_LEN` is refused after it was fed.
    pub fn new_decode(magic_byte: MagicByte, encoded_byte: u8, crc: &mut Crc) -> (r: Result<
        LengthByte,
        Error,
    >)
        ensures
            encoded_byte == SYNC ==> r == Err::<LengthByte, Error>(Error::EarlySync) && final(crc)@
                == old(crc)@,
            encoded_byte != SYNC ==> ({
                let v = unescape_spec(magic_byte@, encoded_byte);
                &&& final(crc)@ == old(crc)@.push(v)
                &&& v > MAX_FRAME_LEN ==> r == Err::<LengthByte, Error>(Error::InvalidLen(v))
                &&& v <= MAX_FRAME_LEN ==> (r matches Ok(l) && l@ == v)
            }),
    {
        match ne_start(encoded_byte) {
            Err(e) => Err(e),
            Ok(()) => {
                let value = crc.update(magic_byte.decode_byte(encoded_byte));
                if value > MAX_FRAME_LEN {
                    return Err(Error::InvalidLen(value));
                }
                Ok(LengthByte { value })
            },
        }
    }
}

/// A received payload byte, unescaped.
#[derive(Clone, Copy, Debug)]
pub struct DataByte {
    value: u8,
}

impl View for DataByte {
    type V = u8;

    closed spec fn view(&self) -> u8 {
        self.value
    }
}

impl DataByte {
    /// Checks and unescapes a received payload byte and feeds it to `crc`.
    /// The sync value is refused and leaves `crc` as it was.
    pub fn new_decode(magic_byte: MagicByte, encoded_byte: u8, crc: &mut Crc) -> (r: Result<
        DataByte,
        Error,
    >)
        ensures
            encoded_byte == SYNC ==> r == Err::<DataByte, Error>(Error::EarlySync) && final(crc)@
                == old(crc)@,
            encoded_byte != SYNC ==> ({
                let v = unescape_spec(magic_byte@, encoded_byte);
                &&& final(crc)@ == old(crc)@.push(v)
                &&& r matches Ok(d) && d@ == v
            }),
    {
        match ne_start(encoded_byte) {
            Err(e) => Err(e),
            Ok(()) => {
                let value = crc.update(magic_byte.decode_byte(encoded_byte));
                Ok(DataByte { value })
            },
        }
    }
}

/// The two received checksum bytes, unescaped, once they matched.
#[derive(Clone, Copy, Debug)]
pub struct CrcByte {
    value: [u8; 2],
}

impl View for CrcByte {
    type V = Seq<u8>;

    closed spec fn view(&self) -> Seq<u8> {
        self.value@
    }
}

impl CrcByte {
    /// Checks and unescapes the two received checksum bytes and compares
    /// them with the checksum of the bytes fed to `crc`.
    pub fn new_decode(crc: Crc, magic_byte: MagicByte, encoded: [u8; 2]) -> (r: Result<
        CrcByte,
        Error,
    >)
        ensures
            (encoded[0] == SYNC || encoded[1] == SYNC) ==> r == Err::<CrcByte, Error>(
                Error::EarlySync,
            ),
            (encoded[0] != SYNC && encoded[1] != SYNC) ==> ({
                let got = seq![
                    unescape_spec(magic_byte@, encoded[0]),
                    unescape_spec(magic_byte@, encoded[1]),
                ];
                &&& got == checksum_of(crc@) ==> (r matches Ok(c) && c@ == got)
                &&& got != checksum_of(crc@) ==> (r matches Err(Error::InvalidCrc { got: g, expected })
                    && g@ == got && expected@ == checksum_of(crc@))
            }),
    {
        if encoded[0] == SYNC || encoded[1] == SYNC {
            return Err(Error::EarlySync);
        }
        let value = [magic_byte.decode_byte(encoded[0]), magic_byte.decode_byte(encoded[1])];
        let expected = crc.finalize();
        if value[0] != expected[0] || value[1] != expected[1] {
            return Err(Error::InvalidCrc { got: value, expected });
        }
        assert(value@ =~= seq![
            unescape_spec(magic_byte@, encoded[0]),
            unescape_spec(magic_byte@, encoded[1]),
        ]);
        Ok(CrcByte { value })
    }
}

impl From<DataByte> for u8 {
    fn from(b: DataByte) -> (r: u8)
        ensures
            r == b@,
    {
        b.value
    }
}

impl vstd::std_specs::convert::FromSpecImpl<DataByte> for u8 {
    open spec fn obeys_from_spec() -> bool {
        true
    }

    open spec fn from_spec(b: DataByte) -> u8 {
        b@
    }
}

impl From<LengthByte> for u8 {
    fn from(b: LengthByte) -> (r: u8)
        ensures
            r == b@,
    {
        b.value
    }
}

impl vstd::std_specs::convert::FromSpecImpl<LengthByte> for u8 {
    open spec fn obeys_from_spec() -> bool {
        true
    }

    open spec fn from_spec(b: LengthByte) -> u8 {
        b@
    }
}

} // verus!
