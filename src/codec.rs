//! What the encoder and the decoder do together: a decoder fed the bytes of
//! an encoded frame gives back the id and payload that went in.
use crate::crc::checksum_of;
use crate::decoder::{decode_result, next_state, out_after, state_after, DecodeView};
use crate::escape::{escape_spec, unescape_spec};
use crate::frame::{
    encoded_frame, frame_body, frame_fields, header_for, lemma_frame_escape, HeaderView,
};
use crate::{Error, MAX_FRAME_LEN, SYNC};
use vstd::prelude::*;

verus! {

/// What a decoder has done after being fed a sequence of bytes: its state,
/// its payload buffer, and the result of each byte.
pub struct RunView {
    pub state: DecodeView,
    pub out: Seq<u8>,
    pub results: Seq<Result<Option<HeaderView>, Error>>,
}

/// A decoder in state `s` with payload buffer `out`, fed `bytes` in order.
pub open spec fn run(s: DecodeView, bytes: Seq<u8>, out: Seq<u8>) -> RunView
    decreases bytes.len(),
{
    if bytes.len() == 0 {
        RunView { state: s, out, results: Seq::empty() }
    } else {
        let r = run(s, bytes.drop_last(), out);
        let b = bytes.last();
        RunView {
            state: state_after(r.state, b),
            out: out_after(r.state, b, r.out),
            results: r.results.push(decode_result(r.state, b)),
        }
    }
}

/// A state in which the decoder takes a sync byte as the start of a frame.
pub open spec fn is_idle(s: DecodeView) -> bool {
    s is AwaitingSync || s is FrameComplete
}

/// The state a decoder reaches after the first `k` bytes (at least one) of
/// the frame carrying `payload` under `id`.
pub open spec fn state_within_frame(id: u8, payload: Seq<u8>, k: int) -> DecodeView {
    let h = header_for(id, payload);
    let n = payload.len() as int;
    let body = frame_body(id, payload);
    if k == 1 {
        DecodeView::AwaitingEscape
    } else if k == 2 {
        DecodeView::AwaitingId { escape: h.escape, fed: Seq::empty() }
    } else if k == 3 {
        DecodeView::AwaitingLen { escape: h.escape, id, fed: body.take(1) }
    } else if k < 4 + n {
        DecodeView::ReadingPayload {
            escape: h.escape,
            id,
            len: h.len,
            index: (k - 4) as nat,
            fed: body.take(k - 2),
        }
    } else if k == 4 + n {
        DecodeView::AwaitingCrc { escape: h.escape, id, len: h.len, fed: body, first: None }
    } else if k == 5 + n {
        DecodeView::AwaitingCrc {
            escape: h.escape,
            id,
            len: h.len,
            fed: body,
            first: Some(encoded_frame(id, payload)[4 + n]),
        }
    } else {
        DecodeView::FrameComplete(h)
    }
}

/// How many payload bytes have been stored after the first `k` bytes of a
/// frame with `n` payload bytes.
pub open spec fn stored_within_frame(n: int, k: int) -> int {
    if k <= 4 {
        0
    } else if k - 4 >= n {
        n
    } else {
        k - 4
    }
}

/// The wire bytes of a frame: sync, escape, then each field byte escaped.
proof fn lemma_frame_bytes(id: u8, payload: Seq<u8>)
    requires
        payload.len() <= MAX_FRAME_LEN,
    ensures
        ({
            let w = encoded_frame(id, payload);
            let f = frame_fields(id, payload);
            let e = header_for(id, payload).escape;
            &&& w.len() == payload.len() + 6
            &&& w[0] == SYNC
            &&& w[1] == e
            &&& e != SYNC
            &&& f[0] == id
            &&& f[1] == payload.len() as u8
            &&& forall|j: int| 0 <= j < payload.len() ==> f[j + 2] == payload[j]
            &&& forall|j: int| 0 <= j < 2 ==> f[j + 2 + payload.len()] == header_for(id, payload).crc[j]
            &&& forall|j: int|
                0 <= j < payload.len() + 4 ==> {
                    &&& #[trigger] w[j + 2] == escape_spec(e, f[j])
                    &&& w[j + 2] != SYNC
                    &&& unescape_spec(e, w[j + 2]) == f[j]
                }
        }),
{
    lemma_frame_escape(id, payload);
    let f = frame_fields(id, payload);
    let e = header_for(id, payload).escape;
    assert forall|j: int| 0 <= j < payload.len() + 4 implies f[j] != e by {
        if f[j] == e {
            assert(f.contains(e));
        }
    }
}

/// After the first `k` bytes of an encoded frame a decoder that started idle
/// is in `state_within_frame(id, payload, k)`, has stored the payload bytes
/// received so far, and has returned a header only for the last byte.
pub proof fn lemma_frame_prefix(start: DecodeView, id: u8, payload: Seq<u8>, out: Seq<u8>, k: int)
    requires
        is_idle(start),
        payload.len() <= MAX_FRAME_LEN,
        out.len() >= MAX_FRAME_LEN,
        1 <= k <= payload.len() + 6,
    ensures
        ({
            let r = run(start, encoded_frame(id, payload).take(k), out);
            let n = payload.len() as int;
            &&& r.state == state_within_frame(id, payload, k)
            &&& r.out.len() == out.len()
            &&& forall|j: int| 0 <= j < stored_within_frame(n, k) ==> r.out[j] == payload[j]
            &&& r.results.len() == k
            &&& forall|i: int|
                0 <= i < k ==> r.results[i] == if i == n + 5 {
                    Ok::<Option<HeaderView>, Error>(Some(header_for(id, payload)))
                } else {
                    Ok(None)
                }
        }),
    decreases k,
{
    let w = encoded_frame(id, payload);
    let n = payload.len() as int;
    let h = header_for(id, payload);
    let body = frame_body(id, payload);
    let f = frame_fields(id, payload);
    lemma_frame_bytes(id, payload);
    assert(w.take(k).drop_last() =~= w.take(k - 1));
    assert(w.take(k).last() == w[k - 1]);
    if k == 1 {
        assert(w.take(0) =~= Seq::<u8>::empty());
    } else {
        lemma_frame_prefix(start, id, payload, out, k - 1);
        let r = run(start, w.take(k - 1), out);
        let b = w[k - 1];
        if k == 2 {
        } else if k == 3 {
            assert(b == w[0int + 2]);
            assert(body.take(1) =~= Seq::<u8>::empty().push(id));
        } else if k == 4 {
            assert(b == w[1int + 2]);
            assert(body.take(2) =~= body.take(1).push(h.len));
            if n == 0 {
                assert(body.take(2) =~= body);
            }
        } else if k < 5 + n {
            let i = k - 5;
            assert(b == w[(i + 2) + 2]);
            assert(body.take(k - 2) =~= body.take(k - 3).push(payload[i]));
            if k == 4 + n {
                assert(body.take(k - 2) =~= body);
            }
            let o = r.out.update(i, payload[i]);
            assert forall|j: int| 0 <= j < stored_within_frame(n, k) implies o[j] == payload[j] by {}
        } else if k == 5 + n {
            assert(b == w[(n + 2) + 2]);
        } else {
            assert(b == w[(n + 3) + 2]);
            let b0 = w[(n + 2) + 2];
            assert(seq![unescape_spec(h.escape, b0), unescape_spec(h.escape, b)] =~= checksum_of(body));
        }
    }
}

/// Decoding the encoding of a payload gives back its id and payload: a
/// decoder that waits for a frame and is fed every byte of the frame that
/// carries `payload` (at most `MAX_FRAME_LEN` bytes, of any value) under
/// `id` raises no error, returns nothing until the last byte, returns the
/// frame's header for the last byte, and holds the payload at the front of
/// its buffer.
pub proof fn lemma_round_trip(start: DecodeView, id: u8, payload: Seq<u8>, out: Seq<u8>)
    requires
        is_idle(start),
        payload.len() <= MAX_FRAME_LEN,
        out.len() >= MAX_FRAME_LEN,
    ensures
        ({
            let w = encoded_frame(id, payload);
            let h = header_for(id, payload);
            let r = run(start, w, out);
            &&& h.id == id
            &&& h.len == payload.len()
            &&& r.results.len() == w.len()
            &&& forall|i: int| 0 <= i < w.len() - 1 ==> r.results[i] == Ok::<Option<HeaderView>, Error>(None)
            &&& r.results[w.len() - 1] == Ok::<Option<HeaderView>, Error>(Some(h))
            &&& r.state == DecodeView::FrameComplete(h)
            &&& r.out.len() == out.len()
            &&& r.out.take(payload.len() as int) == payload
        }),
{
    let w = encoded_frame(id, payload);
    lemma_frame_bytes(id, payload);
    lemma_frame_prefix(start, id, payload, out, w.len() as int);
    assert(w.take(w.len() as int) =~= w);
    let r = run(start, w, out);
    assert(r.out.take(payload.len() as int) =~= payload);
}

/// A payload made only of sync values survives the round trip, and none of
/// its bytes travels as the sync value.
pub proof fn lemma_sync_payload(start: DecodeView, id: u8, n: nat, out: Seq<u8>)
    requires
        is_idle(start),
        n <= MAX_FRAME_LEN,
        out.len() >= MAX_FRAME_LEN,
    ensures
        ({
            let payload = Seq::new(n, |i: int| SYNC);
            let w = encoded_frame(id, payload);
            let r = run(start, w, out);
            &&& forall|i: int| 4 <= i < 4 + n ==> w[i] == header_for(id, payload).escape && w[i] != SYNC
            &&& r.state == DecodeView::FrameComplete(header_for(id, payload))
            &&& header_for(id, payload).id == id
            &&& r.out.take(n as int) == payload
        }),
{
    let payload = Seq::new(n, |i: int| SYNC);
    lemma_frame_bytes(id, payload);
    lemma_round_trip(start, id, payload, out);
    let w = encoded_frame(id, payload);
    assert forall|i: int| 4 <= i < 4 + n implies w[i] == header_for(id, payload).escape by {
        assert(w[(i - 2) + 2] == w[i]);
    }
}

/// A frame whose checksum bytes were changed on the way never decodes: one
/// checksum byte replaced by any other value makes the last byte raise
/// `InvalidCrc`, or `EarlySync` where the new value is the sync value, and
/// no byte of the frame returns a header.
pub proof fn lemma_checksum_corruption(
    start: DecodeView,
    id: u8,
    payload: Seq<u8>,
    out: Seq<u8>,
    p: int,
    x: u8,
)
    requires
        is_idle(start),
        payload.len() <= MAX_FRAME_LEN,
        out.len() >= MAX_FRAME_LEN,
        payload.len() + 4 <= p < payload.len() + 6,
        x != encoded_frame(id, payload)[p],
    ensures
        ({
            let w = encoded_frame(id, payload).update(p, x);
            let r = run(start, w, out);
            &&& r.results.len() == w.len()
            &&& forall|i: int| 0 <= i < w.len() ==> !(#[trigger] r.results[i] matches Ok(Some(_)))
            &&& (r.results[w.len() - 1] matches Err(Error::InvalidCrc { .. })
                || r.results[w.len() - 1] == Err::<Option<HeaderView>, Error>(Error::EarlySync))
            &&& r.state == DecodeView::AwaitingSync
        }),
{
    let w0 = encoded_frame(id, payload);
    let w = w0.update(p, x);
    let n = payload.len() as int;
    let h = header_for(id, payload);
    let body = frame_body(id, payload);
    lemma_frame_bytes(id, payload);
    lemma_frame_prefix(start, id, payload, out, n + 4);
    assert(w.take(n + 4) =~= w0.take(n + 4));
    assert(w.take(n + 5).drop_last() =~= w.take(n + 4));
    assert(w.take(n + 6).drop_last() =~= w.take(n + 5));
    assert(w.take(n + 6) =~= w);
    let b0 = w[n + 4];
    let b1 = w[n + 5];
    let o0 = w0[(n + 2) + 2];
    let o1 = w0[(n + 3) + 2];
    let r4 = run(start, w.take(n + 4), out);
    let r5 = run(start, w.take(n + 5), out);
    let r6 = run(start, w.take(n + 6), out);
    assert(r4 == run(start, w0.take(n + 4), out));
    assert(w.take(n + 5).last() == b0);
    assert(w.take(n + 6).last() == b1);
    assert(r5.state == DecodeView::AwaitingCrc {
        escape: h.escape,
        id,
        len: h.len,
        fed: body,
        first: Some(b0),
    });
    assert(r5.results == r4.results.push(Ok(None)));
    assert(r6.results == r5.results.push(decode_result(r5.state, b1)));
    if b0 != SYNC && b1 != SYNC {
        let got = seq![unescape_spec(h.escape, b0), unescape_spec(h.escape, b1)];
        assert(checksum_of(body) =~= seq![unescape_spec(h.escape, o0), unescape_spec(h.escape, o1)]);
        assert(got != checksum_of(body)) by {
            if p == n + 4 {
                assert(got[0] != unescape_spec(h.escape, o0));
            } else {
                assert(got[1] != unescape_spec(h.escape, o1));
            }
        }
    }
}

/// A length field that decodes to more than `MAX_FRAME_LEN` is refused
/// with `InvalidLen`, whatever came before it in the frame, and the decoder
/// starts over.
pub proof fn lemma_length_over_max_rejected(escape: u8, id: u8, fed: Seq<u8>, b: u8)
    requires
        b != SYNC,
        unescape_spec(escape, b) > MAX_FRAME_LEN,
    ensures
        decode_result(DecodeView::AwaitingLen { escape, id, fed }, b) == Err::<
            Option<HeaderView>,
            Error,
        >(Error::InvalidLen(unescape_spec(escape, b))),
        state_after(DecodeView::AwaitingLen { escape, id, fed }, b) == DecodeView::AwaitingSync,
{
}

/// After any error the decoder starts over: the state that any byte raising
/// an error leads to is `AwaitingSync`, and from there the next frame
/// decodes in full.
pub proof fn lemma_resync(
    s: DecodeView,
    b: u8,
    id: u8,
    payload: Seq<u8>,
    out: Seq<u8>,
)
    requires
        next_state(s, b) is Err,
        payload.len() <= MAX_FRAME_LEN,
        out.len() >= MAX_FRAME_LEN,
    ensures
        state_after(s, b) == DecodeView::AwaitingSync,
        ({
            let w = encoded_frame(id, payload);
            let r = run(state_after(s, b), w, out);
            &&& forall|i: int| 0 <= i < w.len() - 1 ==> r.results[i] == Ok::<Option<HeaderView>, Error>(None)
            &&& r.results[w.len() - 1] == Ok::<Option<HeaderView>, Error>(Some(header_for(id, payload)))
            &&& r.state == DecodeView::FrameComplete(header_for(id, payload))
            &&& r.out.take(payload.len() as int) == payload
        }),
{
    lemma_round_trip(DecodeView::AwaitingSync, id, payload, out);
}

} // verus!
