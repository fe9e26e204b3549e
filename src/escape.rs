//! Choosing a frame's escape value, and escaping with it.
use crate::bits::{bits_all_set, bits_clear, bits_of, bits_test, Bits, BITS_LEN};
use crate::{Error, MAX_FRAME_LEN, SYNC};
use vstd::prelude::*;
use vstd::seq_lib::seq_to_set_is_finite;
use vstd::set_lib::{lemma_int_range, lemma_len_subset, set_int_range};

verus! {

/// Number of byte kinds a frame can hold besides its sync and escape bytes:
/// the payload, the id, the length and the two checksum bytes.
pub const MAX_BYTE_KINDS: u8 = MAX_FRAME_LEN + 4;

/// The least value in `v .. bound` that `s` does not hold, or `bound` if it
/// holds them all.
pub open spec fn lowest_absent_from(s: Seq<u8>, bound: nat, v: nat) -> nat
    decreases bound - v,
{
    if v >= bound {
        bound
    } else if !s.contains(v as u8) {
        v
    } else {
        lowest_absent_from(s, bound, v + 1)
    }
}

/// The least value below `bound` that `s` does not hold, or `bound` if it
/// holds them all.
pub open spec fn lowest_absent(s: Seq<u8>, bound: nat) -> nat {
    lowest_absent_from(s, bound, 0)
}

/// The escape value chosen for a frame whose field bytes are `s`.
pub open spec fn escape_for(s: Seq<u8>) -> u8 {
    lowest_absent(s, MAX_BYTE_KINDS as nat) as u8
}

/// How many bytes of `s` are below `bound`.
pub open spec fn count_below(s: Seq<u8>, bound: nat) -> nat
    decreases s.len(),
{
    if s.len() == 0 {
        0
    } else {
        count_below(s.drop_last(), bound) + if (s.last() as nat) < bound {
            1nat
        } else {
            0nat
        }
    }
}

/// A byte as it travels inside a frame escaped with `escape`.
pub open spec fn escape_spec(escape: u8, byte: u8) -> u8 {
    if byte == SYNC {
        escape
    } else {
        byte
    }
}

/// A received byte after undoing the escaping with `escape`.
pub open spec fn unescape_spec(escape: u8, encoded: u8) -> u8 {
    if encoded == escape {
        SYNC
    } else {
        encoded
    }
}

/// Counting the bytes below a bound of a prefix never gives more than of
/// the whole sequence.
pub proof fn lemma_count_below_prefix(s: Seq<u8>, bound: nat, n: int)
    requires
        0 <= n <= s.len(),
    ensures
        count_below(s.take(n), bound) <= count_below(s, bound),
    decreases s.len(),
{
    if n < s.len() {
        lemma_count_below_prefix(s.drop_last(), bound, n);
        assert(s.drop_last().take(n) =~= s.take(n));
    } else {
        assert(s.take(n) =~= s);
    }
}

/// The search from `v` lands on a value in `v ..= bound`, every value it
/// skips is held by `s`, and a value below `bound` is not.
pub proof fn lemma_lowest_absent_from(s: Seq<u8>, bound: nat, v: nat)
    requires
        bound <= 256,
        v <= bound,
    ensures
        v <= lowest_absent_from(s, bound, v) <= bound,
        lowest_absent_from(s, bound, v) < bound ==> !s.contains(
            lowest_absent_from(s, bound, v) as u8,
        ),
        forall|w: u8| v <= w < lowest_absent_from(s, bound, v) ==> #[trigger] s.contains(w),
    decreases bound - v,
{
    if v < bound && s.contains(v as u8) {
        lemma_lowest_absent_from(s, bound, v + 1);
    }
}

/// A sequence of at most `bound` bytes that holds every value below `bound`
/// holds no other value.
proof fn lemma_full_range_is_all(s: Seq<u8>, bound: nat, x: u8)
    requires
        bound <= 256,
        s.len() <= bound,
        forall|w: u8| (w as nat) < bound ==> #[trigger] s.contains(w),
        s.contains(x),
    ensures
        (x as nat) < bound,
{
    if (x as nat) >= bound {
        broadcast use seq_to_set_is_finite;

        let t = s.map_values(|b: u8| b as int);
        let held = set_int_range(0, bound as int).insert(x as int);
        t.lemma_cardinality_of_set();
        lemma_int_range(0, bound as int);
        assert(held.len() == bound + 1);
        assert forall|w: int| #[trigger] held.contains(w) implies t.to_set().contains(w) by {
            let b: u8 = w as u8;
            assert(s.contains(b));
            let k = choose|k: int| 0 <= k < s.len() && s[k] == b;
            assert(t[k] == w);
        }
        lemma_len_subset(held, t.to_set());
    }
}

/// The value picked from at most `bound` bytes is none of them.
pub proof fn lemma_lowest_absent_is_absent(s: Seq<u8>, bound: nat)
    requires
        bound <= 255,
        s.len() <= bound,
    ensures
        !s.contains(lowest_absent(s, bound) as u8),
        lowest_absent(s, bound) <= bound,
{
    lemma_lowest_absent_from(s, bound, 0);
    if lowest_absent(s, bound) == bound && s.contains(bound as u8) {
        lemma_full_range_is_all(s, bound, bound as u8);
    }
}

/// For every collection of at most `MAX_BYTE_KINDS` field bytes, the escape
/// value chosen for it is neither one of those bytes nor the sync value.
pub proof fn lemma_escape_exclusive(s: Seq<u8>)
    requires
        s.len() <= MAX_BYTE_KINDS,
    ensures
        !s.contains(escape_for(s)),
        escape_for(s) != SYNC,
        escape_for(s) <= MAX_BYTE_KINDS,
{
    lemma_lowest_absent_is_absent(s, MAX_BYTE_KINDS as nat);
}

/// Collects the bytes of a frame and picks an escape value none of them
/// equals.
///
/// Its view is the sequence of bytes digested so far.
pub struct EscapeState {
    possible_bytes: Bits,
    count: usize,
    digested: Ghost<Seq<u8>>,
}

impl View for EscapeState {
    type V = Seq<u8>;

    closed spec fn view(&self) -> Seq<u8> {
        self.digested@
    }
}

impl EscapeState {
    /// The bit of each value below `MAX_BYTE_KINDS` is set exactly when no
    /// digested byte has that value, and `count` counts the digested bytes
    /// below `MAX_BYTE_KINDS`.
    pub closed spec fn wf(&self) -> bool {
        &&& bits_of(self.possible_bytes).len() == BITS_LEN
        &&& forall|j: int|
            0 <= j < MAX_BYTE_KINDS ==> #[trigger] bits_of(self.possible_bytes)[j]
                == !self.digested@.contains(j as u8)
        &&& self.count == count_below(self.digested@, MAX_BYTE_KINDS as nat)
        &&& self.count <= MAX_BYTE_KINDS
    }

    pub fn new() -> (r: EscapeState)
        ensures
            r.wf(),
            r@ == Seq::<u8>::empty(),
    {
        assert(MAX_BYTE_KINDS < SYNC);
        EscapeState { possible_bytes: bits_all_set(), count: 0, digested: Ghost(Seq::empty()) }
    }

    /// Digests the bytes in order. At most `MAX_BYTE_KINDS` bytes below
    /// `MAX_BYTE_KINDS` may be digested in all.
    pub fn digest(&mut self, bytes: &[u8])
        requires
            old(self).wf(),
            count_below(old(self)@ + bytes@, MAX_BYTE_KINDS as nat) <= MAX_BYTE_KINDS,
        ensures
            final(self).wf(),
            final(self)@ == old(self)@ + bytes@,
    {
        let mut i: usize = 0;
        while i < bytes.len()
            invariant
                self.wf(),
                i <= bytes@.len(),
                self@ == old(self)@ + bytes@.take(i as int),
                count_below(old(self)@ + bytes@, MAX_BYTE_KINDS as nat) <= MAX_BYTE_KINDS,
            decreases bytes@.len() - i,
        {
            let byte = bytes[i];
            let ghost before = self@;
            let ghost after = before.push(byte);
            assert(after.drop_last() =~= before);
            assert(after =~= old(self)@ + bytes@.take(i as int + 1));
            proof {
                assert((old(self)@ + bytes@).take(after.len() as int) =~= after);
                lemma_count_below_prefix(old(self)@ + bytes@, MAX_BYTE_KINDS as nat, after.len() as int);
            }
            if byte < MAX_BYTE_KINDS {
                bits_clear(&mut self.possible_bytes, byte as usize);
                self.count = self.count + 1;
            }
            self.digested = Ghost(after);
            assert forall|j: int| 0 <= j < MAX_BYTE_KINDS implies #[trigger] bits_of(self.possible_bytes)[j]
                == !after.contains(j as u8) by {
                if after.contains(j as u8) {
                    let k = choose|k: int| 0 <= k < after.len() && after[k] == j as u8;
                    if k < before.len() {
                        assert(before[k] == j as u8);
                    }
                } else {
                    assert(!before.contains(j as u8)) by {
                        if before.contains(j as u8) {
                            let k = choose|k: int| 0 <= k < before.len() && before[k] == j as u8;
                            assert(after[k] == j as u8);
                        }
                    }
                }
            }
            i = i + 1;
        }
        assert(bytes@.take(i as int) =~= bytes@);
    }

    /// The least value below `MAX_BYTE_KINDS` that no digested byte equals,
    /// or `MAX_BYTE_KINDS` itself if there is none.
    pub fn finalize(self) -> (r: Escape)
        requires
            self.wf(),
        ensures
            r@ == escape_for(self@),
    {
        let ghost s = self@;
        let mut i: u8 = 0;
        while i < MAX_BYTE_KINDS
            invariant
                self.wf(),
                s == self@,
                i <= MAX_BYTE_KINDS,
                lowest_absent(s, MAX_BYTE_KINDS as nat) == lowest_absent_from(s, MAX_BYTE_KINDS as nat, i as nat),
            decreases MAX_BYTE_KINDS - i,
        {
            if bits_test(&self.possible_bytes, i as usize) {
                return Escape { value: i };
            }
            i = i + 1;
        }
        Escape { value: MAX_BYTE_KINDS }
    }
}

/// Reports the sync value, which no escaped field byte may be.
pub fn ensure_not_sync(byte: u8) -> (r: Result<(), Error>)
    ensures
        r == (if byte == SYNC {
            Err::<(), Error>(Error::EarlySync)
        } else {
            Ok(())
        }),
{
    if byte == SYNC {
        Err(Error::EarlySync)
    } else {
        Ok(())
    }
}

/// The escape value of one frame; never the sync value.
#[derive(Clone, Copy, Debug)]
pub struct Escape {
    value: u8,
}

impl View for Escape {
    type V = u8;

    closed spec fn view(&self) -> u8 {
        self.value
    }
}

impl Escape {
    #[verifier::type_invariant]
    spec fn inv(self) -> bool {
        self.value != SYNC
    }

    /// Takes `value` as an escape value; the sync value is refused.
    pub fn try_from_raw(value: u8) -> (r: Result<Escape, Error>)
        ensures
            value == SYNC <==> r is Err,
            r matches Err(e) ==> e == Error::EarlySync,
            r matches Ok(e) ==> e@ == value,
    {
        match ensure_not_sync(value) {
            Err(e) => Err(e),
            Ok(()) => Ok(Escape { value }),
        }
    }

    /// A byte as it travels on the wire: the sync value becomes the escape
    /// value. The escape value itself cannot be escaped.
    pub fn escape_byte(&self, byte: u8) -> (r: u8)
        requires
            byte != self@,
        ensures
            r == escape_spec(self@, byte),
            r != SYNC,
    {
        proof {
            use_type_invariant(self);
        }
        if byte == SYNC {
            self.value
        } else {
            byte
        }
    }

    /// Escapes every byte in place.
    pub fn escape_in_place(&self, bytes: &mut [u8])
        requires
            forall|k: int| 0 <= k < old(bytes)@.len() ==> old(bytes)@[k] != self@,
        ensures
            final(bytes)@ == old(bytes)@.map_values(|b: u8| escape_spec(self@, b)),
    {
        let mut i: usize = 0;
        while i < bytes.len()
            invariant
                bytes@.len() == old(bytes)@.len(),
                forall|k: int| 0 <= k < old(bytes)@.len() ==> old(bytes)@[k] != self@,
                forall|k: int| 0 <= k < i ==> bytes@[k] == escape_spec(self@, old(bytes)@[k]),
                forall|k: int| i <= k < bytes@.len() ==> bytes@[k] == old(bytes)@[k],
            decreases bytes@.len() - i,
        {
            let b = self.escape_byte(bytes[i]);
            bytes[i] = b;
            i = i + 1;
        }
        assert(bytes@ =~= old(bytes)@.map_values(|b: u8| escape_spec(self@, b)));
    }

    /// A received byte with the escaping undone; the sync value is refused.
    pub fn unescape(&self, encoded: u8) -> (r: Result<u8, Error>)
        ensures
            r == (if encoded == SYNC {
                Err::<u8, Error>(Error::EarlySync)
            } else {
                Ok(unescape_spec(self@, encoded))
            }),
    {
        match ensure_not_sync(encoded) {
            Err(e) => Err(e),
            Ok(()) => Ok(if encoded == self.value { SYNC } else { encoded }),
        }
    }
}

impl From<Escape> for u8 {
    fn from(value: Escape) -> (r: u8)
        ensures
            r == value@,
    {
        value.value
    }
}

impl vstd::std_specs::convert::FromSpecImpl<Escape> for u8 {
    open spec fn obeys_from_spec() -> bool {
        true
    }

    open spec fn from_spec(v: Escape) -> u8 {
        v@
    }
}

} // verus!
