//! The logical frame: its fields before escaping, and the header that
//! describes them.
use crate::crc::{checksum_of, Crc};
use crate::escape::{
    count_below, escape_for, escape_spec, lemma_count_below_prefix, lemma_escape_exclusive, Escape, EscapeState,
    MAX_BYTE_KINDS,
};
use crate::{HEADER_LEN, MAX_FRAME_LEN, SYNC};
use vstd::prelude::*;

verus! {

/// The bytes the checksum covers: id, length, then the payload.
pub open spec fn frame_body(id: u8, payload: Seq<u8>) -> Seq<u8> {
    seq![id, payload.len() as u8] + payload
}

/// Every field byte that travels escaped: id, length, payload and checksum.
pub open spec fn frame_fields(id: u8, payload: Seq<u8>) -> Seq<u8> {
    frame_body(id, payload) + checksum_of(frame_body(id, payload))
}

/// What a header says of its frame.
pub struct HeaderView {
    pub escape: u8,
    pub id: u8,
    pub len: u8,
    pub crc: Seq<u8>,
}

/// The header of the frame that carries `payload` under `id`.
pub open spec fn header_for(id: u8, payload: Seq<u8>) -> HeaderView {
    HeaderView {
        escape: escape_for(frame_fields(id, payload)),
        id,
        len: payload.len() as u8,
        crc: checksum_of(frame_body(id, payload)),
    }
}

/// The wire bytes of the frame that carries `payload` under `id`.
pub open spec fn encoded_frame(id: u8, payload: Seq<u8>) -> Seq<u8> {
    let escape = header_for(id, payload).escape;
    seq![SYNC, escape] + frame_fields(id, payload).map_values(|b: u8| escape_spec(escape, b))
}

/// The field bytes of a frame with at most `MAX_FRAME_LEN` payload bytes
/// never hold its escape value, and the escape value is not the sync value.
pub proof fn lemma_frame_escape(id: u8, payload: Seq<u8>)
    requires
        payload.len() <= MAX_FRAME_LEN,
    ensures
        frame_fields(id, payload).len() == payload.len() + 4,
        !frame_fields(id, payload).contains(header_for(id, payload).escape),
        header_for(id, payload).escape != SYNC,
{
    lemma_escape_exclusive(frame_fields(id, payload));
}

/// No more bytes of `s` are below a bound than `s` has.
pub proof fn lemma_count_below_len(s: Seq<u8>, bound: nat)
    ensures
        count_below(s, bound) <= s.len(),
    decreases s.len(),
{
    if s.len() > 0 {
        lemma_count_below_len(s.drop_last(), bound);
    }
}

/// The fixed fields of one frame: escape value, id, payload length and
/// checksum. The length is at most `MAX_FRAME_LEN`.
#[derive(Clone, Copy, Debug)]
pub struct Header {
    escape: Escape,
    id: u8,
    len: u8,
    crc: [u8; 2],
}

impl View for Header {
    type V = HeaderView;

    closed spec fn view(&self) -> HeaderView {
        HeaderView { escape: self.escape@, id: self.id, len: self.len, crc: self.crc@ }
    }
}

impl Header {
    /// Builds a header from its parts.
    pub(crate) fn from_parts(escape: Escape, id: u8, len: u8, crc: [u8; 2]) -> (r: Header)
        ensures
            r@ == (HeaderView { escape: escape@, id, len, crc: crc@ }),
    {
        Header { escape, id, len, crc }
    }

    /// The number of bytes the frame takes on the wire.
    pub fn get_len(&self) -> (r: usize)
        ensures
            r == self@.len + HEADER_LEN,
    {
        self.len as usize + HEADER_LEN
    }

    /// The header of the frame that carries `data` under `id`: its checksum
    /// over id, length and payload, and an escape value that none of id,
    /// length, payload and checksum holds.
    pub fn new(id: u8, data: &[u8]) -> (r: Header)
        requires
            data@.len() <= MAX_FRAME_LEN,
        ensures
            r@ == header_for(id, data@),
    {
        let len = data.len() as u8;
        let mut crc = Crc::new();
        crc.update(id);
        crc.update(len);
        crc.digest(data);
        assert(crc@ =~= frame_body(id, data@));
        let crc = crc.finalize();

        let ghost fields = frame_fields(id, data@);
        proof {
            lemma_count_below_len(fields, MAX_BYTE_KINDS as nat);
            assert(fields =~= seq![id] + seq![len] + data@ + crc@);
        }
        let mut escape = EscapeState::new();
        let id_field = [id];
        let len_field = [len];
        proof {
            let n = data@.len() as int;
            lemma_count_below_prefix(fields, MAX_BYTE_KINDS as nat, 1);
            lemma_count_below_prefix(fields, MAX_BYTE_KINDS as nat, 2);
            lemma_count_below_prefix(fields, MAX_BYTE_KINDS as nat, 2 + n);
            assert(Seq::<u8>::empty() + id_field@ =~= fields.take(1));
            assert(fields.take(1) + len_field@ =~= fields.take(2));
            assert(fields.take(2) + data@ =~= fields.take(2 + n));
            assert(fields.take(2 + n) + crc@ =~= fields);
        }
        escape.digest(&id_field);
        escape.digest(&len_field);
        escape.digest(data);
        escape.digest(&crc);
        let escape = escape.finalize();
        Header { escape, id, len, crc }
    }

    /// The escape value of the frame, ready to escape with.
    pub(crate) fn escaper(&self) -> (r: Escape)
        ensures
            r@ == self@.escape,
    {
        self.escape
    }

    /// The escape value of the frame.
    pub fn escape(&self) -> (r: u8)
        ensures
            r == self@.escape,
    {
        self.escape.into()
    }

    /// The identifier byte of the frame.
    pub fn id(&self) -> (r: u8)
        ensures
            r == self@.id,
    {
        self.id
    }

    /// The number of payload bytes.
    pub fn len(&self) -> (r: u8)
        ensures
            r == self@.len,
    {
        self.len
    }

    /// The checksum bytes, most significant first.
    pub fn crc(&self) -> (r: [u8; 2])
        ensures
            r@ == self@.crc,
    {
        self.crc
    }
}

} // verus!
