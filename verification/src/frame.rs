//! Length-prefixed framing of the byte stream.
//!
//! Every wire frame is a big-endian `u32` payload length followed by that
//! many payload bytes.  `FrameBuffer` accumulates whatever the socket
//! yields and hands back whole frames.

use vstd::prelude::*;

use crate::codec::{dec_u32, enc_u32, lemma_dec_enc_u32, max_len, Serializable};
use crate::messages::Message;

verus! {

/// The wire form of one frame.
pub open spec fn enc_frame(payload: Seq<u8>) -> Seq<u8> {
    enc_u32(payload.len() as u32) + payload
}

/// Whether a whole frame starts the buffer.
pub open spec fn frame_ready(b: Seq<u8>) -> bool {
    match dec_u32(b) {
        Some((len, _)) => b.len() >= 4 + len,
        None => false,
    }
}

/// The first frame's payload.
pub open spec fn frame_payload(b: Seq<u8>) -> Seq<u8>
    recommends
        frame_ready(b),
{
    match dec_u32(b) {
        Some((len, _)) => b.subrange(4, 4 + len),
        None => Seq::empty(),
    }
}

/// What remains after the first frame.
pub open spec fn frame_rest(b: Seq<u8>) -> Seq<u8>
    recommends
        frame_ready(b),
{
    match dec_u32(b) {
        Some((len, _)) => b.skip(4 + len),
        None => b,
    }
}

/// A framed payload, followed by anything, parses back exactly.
pub proof fn lemma_frame_round(payload: Seq<u8>, rest: Seq<u8>)
    requires
        payload.len() <= max_len(),
    ensures
        frame_ready(enc_frame(payload) + rest),
        frame_payload(enc_frame(payload) + rest) == payload,
        frame_rest(enc_frame(payload) + rest) == rest,
{
    let whole = enc_frame(payload) + rest;
    lemma_dec_enc_u32(payload.len() as u32, payload + rest);
    assert(whole =~= enc_u32(payload.len() as u32) + (payload + rest));
    assert(whole.subrange(4, 4 + payload.len() as int) =~= payload);
    assert(whole.skip(4 + payload.len() as int) =~= rest);
}

/// Frames one message; refused when the message does not fit the format.
pub fn frame_message(m: &Message) -> (r: Option<Vec<u8>>)
    ensures
        ({
            let body = <Message as Serializable>::enc(m.deep_view());
            let ok = <Message as Serializable>::enc_ok(m.deep_view()) && body.len() <= max_len();
            match r {
                Some(b) => ok && b@ == enc_frame(body),
                None => !ok,
            }
        }),
{
    let mut body: Vec<u8> = Vec::new();
    if !m.serialize(&mut body) {
        return None;
    }
    let n: usize = body.len();
    if n > 0xffff_ffffusize {
        return None;
    }
    let mut out: Vec<u8> = Vec::new();
    let _ = (n as u32).serialize(&mut out);
    out.append(&mut body);
    proof {
        assert(out@ =~= enc_frame(<Message as Serializable>::enc(m.deep_view())));
    }
    Some(out)
}

/// The inbound byte accumulator of one connection.
pub struct FrameBuffer {
    data: Vec<u8>,
}

impl View for FrameBuffer {
    type V = Seq<u8>;

    closed spec fn view(&self) -> Seq<u8> {
        self.data@
    }
}

impl FrameBuffer {
    pub fn new() -> (r: FrameBuffer)
        ensures
            r@ == Seq::<u8>::empty(),
    {
        let r = FrameBuffer { data: Vec::new() };
        proof {
            assert(r@ =~= Seq::<u8>::empty());
        }
        r
    }

    /// Appends what the socket yielded.
    pub fn push_bytes(&mut self, bytes: Vec<u8>)
        ensures
            final(self)@ == old(self)@ + bytes@,
    {
        let mut b = bytes;
        self.data.append(&mut b);
    }

    /// Takes the first whole frame's payload off the buffer, if one has
    /// arrived.
    pub fn next_frame(&mut self) -> (r: Option<Vec<u8>>)
        ensures
            match r {
                Some(p) => {
                    &&& frame_ready(old(self)@)
                    &&& p@ == frame_payload(old(self)@)
                    &&& final(self)@ == frame_rest(old(self)@)
                },
                None => {
                    &&& !frame_ready(old(self)@)
                    &&& final(self)@ == old(self)@
                },
            },
    {
        let mut pos: usize = 0;
        let len32 = match u32::deserialize(&self.data, &mut pos) {
            Some(v) => v,
            None => {
                return None;
            },
        };
        let len = len32 as usize;
        if self.data.len() - 4 < len {
            return None;
        }
        let payload = vstd::slice::slice_to_vec(
            vstd::slice::slice_subrange(self.data.as_slice(), 4, 4 + len),
        );
        let rest = vstd::slice::slice_to_vec(
            vstd::slice::slice_subrange(self.data.as_slice(), 4 + len, self.data.len()),
        );
        proof {
            assert(payload@ =~= frame_payload(old(self)@));
            assert(rest@ =~= frame_rest(old(self)@));
        }
        self.data = rest;
        Some(payload)
    }
}

} // verus!
