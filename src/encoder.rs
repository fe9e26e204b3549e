//! Turning an id and a payload into the bytes of one frame.
use crate::escape::escape_spec;
use crate::frame::{encoded_frame, frame_fields, header_for, lemma_frame_escape, Header};
use crate::{HEADER_LEN, MAX_FRAME_LEN, SYNC};
use vstd::prelude::*;

verus! {

/// The number of bytes the frame carrying `data` takes on the wire.
pub fn encoded_len(data: &[u8]) -> (r: usize)
    requires
        data@.len() + HEADER_LEN <= usize::MAX,
    ensures
        r == data@.len() + HEADER_LEN,
{
    data.len() + HEADER_LEN
}

/// Writes the frame that carries `data` under `id` to the front of `out`,
/// leaves the rest of `out` as it was, and returns the frame's header. The
/// frame takes `encoded_len(data)` bytes.
pub fn encode_in_place(id: u8, data: &[u8], out: &mut [u8]) -> (r: Header)
    requires
        data@.len() <= MAX_FRAME_LEN,
        old(out)@.len() >= data@.len() + HEADER_LEN,
    ensures
        r@ == header_for(id, data@),
        final(out)@.len() == old(out)@.len(),
        final(out)@.take(data@.len() + HEADER_LEN) == encoded_frame(id, data@),
        final(out)@.skip(data@.len() + HEADER_LEN) == old(out)@.skip(data@.len() + HEADER_LEN),
{
    let header = Header::new(id, data);
    let ghost fields = frame_fields(id, data@);
    let ghost escape = header@.escape;
    proof {
        lemma_frame_escape(id, data@);
        assert(fields[0] == id);
        assert(fields[1] == header@.len);
    }
    let n = data.len();
    out[0] = SYNC;
    out[1] = header.escape();
    let escaper = header.escaper();
    let crc = header.crc();
    out[2] = escaper.escape_byte(header.id());
    out[3] = escaper.escape_byte(header.len());
    let mut i: usize = 0;
    while i < n
        invariant
            n == data@.len(),
            n <= MAX_FRAME_LEN,
            i <= n,
            out@.len() == old(out)@.len(),
            out@.len() >= n + HEADER_LEN,
            header@ == header_for(id, data@),
            escape == header@.escape,
            escaper@ == escape,
            crc@ == header@.crc,
            fields == frame_fields(id, data@),
            !fields.contains(escape),
            fields.len() == n + 4,
            out@[0] == SYNC,
            out@[1] == escape,
            forall|k: int| 0 <= k < 2 + i ==> out@[k + 2] == escape_spec(escape, fields[k]),
            forall|k: int| n + HEADER_LEN <= k < out@.len() ==> out@[k] == old(out)@[k],
        decreases n - i,
    {
        assert(fields[i + 2] == data@[i as int]);
        out[i + 4] = escaper.escape_byte(data[i]);
        i = i + 1;
    }
    assert(fields[n + 2] == header@.crc[0]);
    assert(fields[n + 3] == header@.crc[1]);
    out[n + 4] = escaper.escape_byte(crc[0]);
    out[n + 5] = escaper.escape_byte(crc[1]);
    assert(out@.take(n + HEADER_LEN) =~= encoded_frame(id, data@));
    assert(out@.skip(n + HEADER_LEN) =~= old(out)@.skip(n + HEADER_LEN));
    header
}

} // verus!
