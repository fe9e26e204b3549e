//! Finding a byte value that a block of data does not hold.
use crate::bits::{bits_all_set, bits_clear, bits_of, bits_test, Bits, BITS_LEN};
use crate::escape::{lemma_lowest_absent_is_absent, lowest_absent, lowest_absent_from};
use crate::MAX_FRAME_LEN;
use vstd::prelude::*;

verus! {

/// Tracks which values below `MAX_FRAME_LEN` the excluded bytes leave free.
struct EscapeFinder {
    possible_bytes: Bits,
    excluded: Ghost<Seq<u8>>,
}

impl EscapeFinder {
    /// The bit of each value below `MAX_FRAME_LEN` is set exactly when no
    /// excluded byte has that value.
    spec fn wf(&self) -> bool {
        &&& bits_of(self.possible_bytes).len() == BITS_LEN
        &&& forall|j: int|
            0 <= j < MAX_FRAME_LEN ==> #[trigger] bits_of(self.possible_bytes)[j]
                == !self.excluded@.contains(j as u8)
    }

    fn new() -> (r: EscapeFinder)
        ensures
            r.wf(),
            r.excluded@ == Seq::<u8>::empty(),
    {
        EscapeFinder { possible_bytes: bits_all_set(), excluded: Ghost(Seq::empty()) }
    }

    fn exclude_byte(&mut self, byte: u8)
        requires
            old(self).wf(),
        ensures
            final(self).wf(),
            final(self).excluded@ == old(self).excluded@.push(byte),
    {
        let ghost before = self.excluded@;
        let ghost after = before.push(byte);
        let ghost old_bits = bits_of(self.possible_bytes);
        assert(old_bits.len() == BITS_LEN);
        if byte < MAX_FRAME_LEN {
            bits_clear(&mut self.possible_bytes, byte as usize);
            assert(bits_of(self.possible_bytes) == old_bits.update(byte as int, false));
        }
        self.excluded = Ghost(after);
        assert forall|j: int| 0 <= j < MAX_FRAME_LEN implies #[trigger] bits_of(self.possible_bytes)[j]
            == !after.contains(j as u8) by {
            assert(old_bits[j] == !before.contains(j as u8));
            assert(after[before.len() as int] == byte);
            if after.contains(j as u8) {
                let k = choose|k: int| 0 <= k < after.len() && after[k] == j as u8;
                if k < before.len() {
                    assert(before[k] == j as u8);
                }
            } else {
                assert(!before.contains(j as u8)) by {
                    if before.contains(j as u8) {
                        let k = choose|k: int| 0 <= k < before.len() && before[k] == j as u8;
                        assert(after[k] == j as u8);
                    }
                }
            }
        }
    }

    /// The least value below `MAX_FRAME_LEN` that no excluded byte equals, or
    /// `MAX_FRAME_LEN` if there is none.
    fn find_escape(self) -> (r: u8)
        requires
            self.wf(),
        ensures
            r == lowest_absent(self.excluded@, MAX_FRAME_LEN as nat),
    {
        let ghost s = self.excluded@;
        let mut i: u8 = 0;
        while i < MAX_FRAME_LEN
            invariant
                self.wf(),
                s == self.excluded@,
                i <= MAX_FRAME_LEN,
                lowest_absent(s, MAX_FRAME_LEN as nat) == lowest_absent_from(
                    s,
                    MAX_FRAME_LEN as nat,
                    i as nat,
                ),
            decreases MAX_FRAME_LEN - i,
        {
            if bits_test(&self.possible_bytes, i as usize) {
                return i;
            }
            i = i + 1;
        }
        MAX_FRAME_LEN
    }
}

/// The least byte value below `MAX_FRAME_LEN` that `data` does not hold, or
/// `MAX_FRAME_LEN` if it holds them all; never a value of `data`.
pub fn find_escape(data: &[u8]) -> (r: u8)
    requires
        data@.len() <= MAX_FRAME_LEN,
    ensures
        r == lowest_absent(data@, MAX_FRAME_LEN as nat),
        r <= MAX_FRAME_LEN,
        !data@.contains(r),
{
    let mut finder = EscapeFinder::new();
    let mut i: usize = 0;
    assert(data@.take(0) =~= Seq::<u8>::empty());
    while i < data.len()
        invariant
            finder.wf(),
            i <= data@.len(),
            finder.excluded@ == data@.take(i as int),
        decreases data@.len() - i,
    {
        finder.exclude_byte(data[i]);
        assert(data@.take(i as int + 1) =~= data@.take(i as int).push(data@[i as int]));
        i = i + 1;
    }
    assert(data@.take(i as int) =~= data@);
    proof {
        lemma_lowest_absent_is_absent(data@, MAX_FRAME_LEN as nat);
    }
    finder.find_escape()
}

/// The least byte value below `MAX_FRAME_LEN` that `data` does not hold, or
/// `MAX_FRAME_LEN` if it holds them all; never a value of `data`.
pub fn find_magic_byte(data: &[u8]) -> (r: u8)
    requires
        data@.len() <= MAX_FRAME_LEN,
    ensures
        r == lowest_absent(data@, MAX_FRAME_LEN as nat),
        r <= MAX_FRAME_LEN,
        !data@.contains(r),
{
    find_escape(data)
}

} // verus!
