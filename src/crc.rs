//! The checksum accumulator: CRC-16/ARC over the logical bytes of a frame.
use vstd::prelude::*;

verus! {

/// The running register of CRC-16/ARC after `msg` was fed to a register
/// holding `crc`, as computed by `crc16`'s `<ARC as CrcType>::update`.
pub uninterp spec fn arc_update(crc: u16, msg: Seq<u8>) -> u16;

/// The CRC-16/ARC value of a running register, as computed by `crc16`'s
/// `<ARC as CrcType>::get`.
pub uninterp spec fn arc_get(crc: u16) -> u16;

/// The running register after feeding `s` one byte at a time to a fresh one.
pub open spec fn register_after(s: Seq<u8>) -> u16
    decreases s.len(),
{
    if s.len() == 0 {
        0
    } else {
        arc_update(register_after(s.drop_last()), seq![s.last()])
    }
}

/// A 16-bit value as two bytes, most significant first.
pub open spec fn be_bytes(v: u16) -> Seq<u8> {
    seq![(v / 256) as u8, (v % 256) as u8]
}

/// The two checksum bytes of a frame whose id, length and payload are `s`.
pub open spec fn checksum_of(s: Seq<u8>) -> Seq<u8> {
    be_bytes(arc_get(register_after(s)))
}

/// Relies on `crc16`'s `<ARC as CrcType>::init`, which is zero for ARC (its
/// `init` parameter is `0x0000`, and neither the reflection loop nor the
/// bit-reverse table moves a zero).
#[verifier::external_body]
fn arc_init() -> (r: u16)
    ensures
        r == 0,
{
    <crc16::ARC as crc16::CrcType>::init()
}

/// Relies on `crc16`'s `<ARC as CrcType>::update`: one byte fed to the register.
#[verifier::external_body]
fn arc_update_byte(crc: u16, byte: u8) -> (r: u16)
    ensures
        r == arc_update(crc, seq![byte]),
{
    <crc16::ARC as crc16::CrcType>::update(crc, &[byte])
}

/// Relies on `crc16`'s `<ARC as CrcType>::get`: the value of the register.
#[verifier::external_body]
fn arc_get_value(crc: u16) -> (r: u16)
    ensures
        r == arc_get(crc),
{
    <crc16::ARC as crc16::CrcType>::get(crc)
}

/// Accumulates bytes into a CRC-16/ARC checksum.
///
/// Its view is the sequence of bytes fed so far.
#[derive(Clone, Copy)]
pub struct Crc {
    register: u16,
    fed: Ghost<Seq<u8>>,
}

impl View for Crc {
    type V = Seq<u8>;

    closed spec fn view(&self) -> Seq<u8> {
        self.fed@
    }
}

impl Crc {
    #[verifier::type_invariant]
    spec fn inv(self) -> bool {
        self.register == register_after(self.fed@)
    }

    pub fn new() -> (r: Crc)
        ensures
            r@ == Seq::<u8>::empty(),
    {
        Crc { register: arc_init(), fed: Ghost(Seq::empty()) }
    }

    /// Feeds one byte and hands it back.
    pub fn update(&mut self, byte: u8) -> (r: u8)
        ensures
            r == byte,
            final(self)@ == old(self)@.push(byte),
    {
        proof {
            use_type_invariant(&*self);
            let s = self.fed@.push(byte);
            assert(s.drop_last() =~= self.fed@);
        }
        let register = arc_update_byte(self.register, byte);
        *self = Crc { register, fed: Ghost(self.fed@.push(byte)) };
        byte
    }

    /// Feeds the bytes in order.
    pub fn digest(&mut self, bytes: &[u8])
        ensures
            final(self)@ == old(self)@ + bytes@,
    {
        let mut i: usize = 0;
        while i < bytes.len()
            invariant
                i <= bytes@.len(),
                self@ == old(self)@ + bytes@.take(i as int),
            decreases bytes@.len() - i,
        {
            self.update(bytes[i]);
            assert(bytes@.take(i as int + 1) =~= bytes@.take(i as int).push(bytes@[i as int]));
            i = i + 1;
        }
        assert(bytes@.take(i as int) =~= bytes@);
    }

    /// The checksum of the bytes fed so far, most significant byte first.
    pub fn finalize(self) -> (r: [u8; 2])
        ensures
            r@ == checksum_of(self@),
    {
        proof {
            use_type_invariant(&self);
        }
        let v = arc_get_value(self.register);
        let r = [(v / 256) as u8, (v % 256) as u8];
        assert(r@ =~= be_bytes(v));
        r
    }
}

} // verus!
