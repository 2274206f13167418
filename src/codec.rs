//! Length-prefixed framing over a duplex byte stream, kept free of I/O: the
//! codec collects the bytes to send and parses the bytes received, and the
//! owner of the transport moves them.
use byteorder::{ByteOrder, NetworkEndian};
use vstd::prelude::*;
use vstd::utf8::{decode_utf8, valid_utf8};

verus! {

/// Request for the server's serialized public key.
pub const PUBLIC_KEY_REQUEST: &'static str = "public_key";

/// Request for the session's information string.
pub const INFORMATION_REQUEST: &'static str = "information request";

/// Marks the end of the requests; the envelope follows.
pub const BEGIN_MESSAGE: &'static str = "begin message";

/// Size of the length prefix of every frame.
pub const HEADER_LEN: usize = 8;

/// The eight bytes of `n`, most significant first.
pub open spec fn be_u64_bytes(n: u64) -> Seq<u8> {
    seq![
        (n >> 56u64) as u8,
        (n >> 48u64) as u8,
        (n >> 40u64) as u8,
        (n >> 32u64) as u8,
        (n >> 24u64) as u8,
        (n >> 16u64) as u8,
        (n >> 8u64) as u8,
        n as u8,
    ]
}

/// The number whose big-endian encoding is the first eight bytes of `b`.
pub open spec fn be_u64_value(b: Seq<u8>) -> u64
    recommends
        b.len() >= 8,
{
    ((b[0] as u64) << 56u64) | ((b[1] as u64) << 48u64) | ((b[2] as u64) << 40u64) | ((
    b[3] as u64) << 32u64) | ((b[4] as u64) << 24u64) | ((b[5] as u64) << 16u64) | ((
    b[6] as u64) << 8u64) | (b[7] as u64)
}

/// One frame on the wire: the payload's length as eight big-endian bytes,
/// then the payload.
pub open spec fn frame_of(payload: Seq<u8>) -> Seq<u8> {
    be_u64_bytes(payload.len() as u64) + payload
}

/// The frames of `payloads`, one after the other, in order.
pub open spec fn frames_of(payloads: Seq<Seq<u8>>) -> Seq<u8>
    decreases payloads.len(),
{
    if payloads.len() == 0 {
        Seq::empty()
    } else {
        frames_of(payloads.drop_last()) + frame_of(payloads.last())
    }
}

/// The payload length that a buffer's header declares.
pub open spec fn declared_len(buf: Seq<u8>) -> int {
    be_u64_value(buf) as int
}

/// Whether `buf` starts with a whole frame.
pub open spec fn holds_frame(buf: Seq<u8>) -> bool {
    buf.len() >= 8 && buf.len() - 8 >= declared_len(buf)
}

/// The payload of the frame at the start of `buf`.
pub open spec fn first_payload(buf: Seq<u8>) -> Seq<u8> {
    buf.subrange(8, 8 + declared_len(buf))
}

/// What is left of `buf` after its first frame.
pub open spec fn after_first(buf: Seq<u8>) -> Seq<u8> {
    buf.subrange(8 + declared_len(buf), buf.len() as int)
}

/// How many more bytes `buf` must receive before it holds a whole frame.
pub open spec fn bytes_needed(buf: Seq<u8>) -> int {
    if buf.len() < 8 {
        8 - buf.len()
    } else if holds_frame(buf) {
        0
    } else {
        declared_len(buf) - (buf.len() - 8)
    }
}

/// Relies on byteorder's `NetworkEndian::write_u64`, which writes `n` into
/// eight bytes, most significant first.
#[verifier::external_body]
fn encode_u64(n: u64) -> (r: Vec<u8>)
    ensures
        r@ == be_u64_bytes(n),
{
    let mut buf = [0u8; 8];
    NetworkEndian::write_u64(&mut buf, n);
    buf.to_vec()
}

/// Relies on byteorder's `NetworkEndian::read_u64`, which reads the first
/// eight bytes as a big-endian number (and panics on fewer).
#[verifier::external_body]
fn decode_u64(b: &[u8]) -> (r: u64)
    requires
        b@.len() >= 8,
    ensures
        r == be_u64_value(b@),
{
    NetworkEndian::read_u64(b)
}

/// Decoding the big-endian bytes of a number gives the number back.
pub proof fn lemma_be_u64_round_trip(n: u64)
    ensures
        be_u64_value(be_u64_bytes(n)) == n,
{
    let b = be_u64_bytes(n);
    assert(b[0] == (n >> 56u64) as u8);
    assert(b[7] == n as u8);
    assert((((n >> 56u64) as u8 as u64) << 56u64) | (((n >> 48u64) as u8 as u64) << 48u64) | ((
    (n >> 40u64) as u8 as u64) << 40u64) | (((n >> 32u64) as u8 as u64) << 32u64) | (((n
        >> 24u64) as u8 as u64) << 24u64) | (((n >> 16u64) as u8 as u64) << 16u64) | (((n
        >> 8u64) as u8 as u64) << 8u64) | (n as u8 as u64) == n) by (bit_vector);
}

/// Why a frame could not be read.
#[derive(Clone, Copy, Debug, PartialEq, Eq, Structural)]
pub enum CodecError {
    /// The stream ended before the declared length was received.
    Truncated,
    /// A frame read as text is not well-formed UTF-8.
    InvalidUtf8,
}

/// Relies on `String::from_utf8`, which accepts exactly the well-formed
/// UTF-8 byte sequences and keeps their characters.
#[verifier::external_body]
pub(crate) fn utf8_to_string(bytes: Vec<u8>) -> (r: Option<String>)
    ensures
        r is Some <==> valid_utf8(bytes@),
        r matches Some(s) ==> s@ == decode_utf8(bytes@),
{
    String::from_utf8(bytes).ok()
}

/// What a codec holds: the bytes written and not yet handed to the
/// transport, and the bytes received and not yet read.
pub struct CodecView {
    pub outgoing: Seq<u8>,
    pub incoming: Seq<u8>,
}

/// Frames messages for one duplex stream endpoint. Written frames collect
/// in an outgoing buffer until the transport takes them; received bytes are
/// fed in and read back one whole frame at a time.
#[derive(Debug)]
pub struct Codec {
    outgoing: Vec<u8>,
    incoming: Vec<u8>,
}

impl View for Codec {
    type V = CodecView;

    closed spec fn view(&self) -> CodecView {
        CodecView { outgoing: self.outgoing@, incoming: self.incoming@ }
    }
}

/// The payloads of a bundle, as byte sequences.
pub open spec fn bundle_view(bundle: Seq<&[u8]>) -> Seq<Seq<u8>> {
    bundle.map_values(|s: &[u8]| s@)
}

/// The frames of a prefix of `payloads` are no longer than those of all.
pub proof fn lemma_frames_prefix_len(payloads: Seq<Seq<u8>>, i: int)
    requires
        0 <= i <= payloads.len(),
    ensures
        frames_of(payloads.take(i)).len() <= frames_of(payloads).len(),
    decreases payloads.len(),
{
    if i < payloads.len() {
        let shorter = payloads.drop_last();
        lemma_frames_prefix_len(shorter, i);
        assert(shorter.take(i) =~= payloads.take(i));
    } else {
        assert(payloads.take(i) =~= payloads);
    }
}

impl Codec {
    /// A codec with nothing written and nothing received.
    pub fn new() -> (r: Codec)
        ensures
            r@.outgoing == Seq::<u8>::empty(),
            r@.incoming == Seq::<u8>::empty(),
    {
        Codec { outgoing: Vec::new(), incoming: Vec::new() }
    }

    /// Appends one frame holding `msg`: its length as eight big-endian bytes,
    /// then the bytes themselves.
    pub fn write_bytes(&mut self, msg: &[u8])
        requires
            old(self)@.outgoing.len() + 8 + msg@.len() <= usize::MAX,
        ensures
            final(self)@.outgoing == old(self)@.outgoing + frame_of(msg@),
            final(self)@.incoming == old(self)@.incoming,
    {
        let header = encode_u64(msg.len() as u64);
        self.outgoing.extend_from_slice(header.as_slice());
        self.outgoing.extend_from_slice(msg);
        assert(self@.outgoing =~= old(self)@.outgoing + frame_of(msg@));
    }

    /// Appends one frame for each entry of `bundle`, in order.
    pub fn write_bundled_bytes(&mut self, bundle: Vec<&[u8]>)
        requires
            old(self)@.outgoing.len() + frames_of(bundle_view(bundle@)).len() <= usize::MAX,
        ensures
            final(self)@.outgoing == old(self)@.outgoing + frames_of(bundle_view(bundle@)),
            final(self)@.incoming == old(self)@.incoming,
    {
        let ghost all = bundle_view(bundle@);
        let mut i: usize = 0;
        while i < bundle.len()
            invariant
                i <= bundle@.len(),
                all == bundle_view(bundle@),
                self@.outgoing == old(self)@.outgoing + frames_of(all.take(i as int)),
                self@.incoming == old(self)@.incoming,
                old(self)@.outgoing.len() + frames_of(all).len() <= usize::MAX,
            decreases bundle@.len() - i,
        {
            let item: &[u8] = bundle[i];
            proof {
                let next = all.take(i as int + 1);
                assert(next.drop_last() =~= all.take(i as int));
                assert(next.last() == item@);
                lemma_frames_prefix_len(all, i as int + 1);
            }
            self.write_bytes(item);
            i = i + 1;
        }
        assert(all.take(i as int) =~= all);
    }

    /// Hands out everything written so far, for the transport to send, and
    /// empties the outgoing buffer.
    pub fn take_outgoing(&mut self) -> (r: Vec<u8>)
        ensures
            r@ == old(self)@.outgoing,
            final(self)@.outgoing == Seq::<u8>::empty(),
            final(self)@.incoming == old(self)@.incoming,
    {
        let mut out: Vec<u8> = Vec::new();
        std::mem::swap(&mut out, &mut self.outgoing);
        out
    }

    /// Appends bytes received from the transport.
    pub fn feed(&mut self, bytes: &[u8])
        requires
            old(self)@.incoming.len() + bytes@.len() <= usize::MAX,
        ensures
            final(self)@.incoming == old(self)@.incoming + bytes@,
            final(self)@.outgoing == old(self)@.outgoing,
    {
        self.incoming.extend_from_slice(bytes);
    }

    /// How many more bytes must be received before the next frame is whole;
    /// zero when it already is.
    pub fn needed(&self) -> (r: u64)
        ensures
            r as int == bytes_needed(self@.incoming),
    {
        let have = self.incoming.len();
        if have < HEADER_LEN {
            return (HEADER_LEN - have) as u64;
        }
        let count = decode_u64(self.incoming.as_slice());
        let available = (have - HEADER_LEN) as u64;
        if available >= count {
            0
        } else {
            count - available
        }
    }

    /// Reads the next frame. When the received bytes hold no whole frame,
    /// the stream ended early: the result is `Truncated` and nothing is
    /// consumed.
    pub fn read_bytes(&mut self) -> (r: Result<Vec<u8>, CodecError>)
        ensures
            final(self)@.outgoing == old(self)@.outgoing,
            holds_frame(old(self)@.incoming) ==> (r matches Ok(p) && p@ == first_payload(
                old(self)@.incoming,
            ) && final(self)@.incoming == after_first(old(self)@.incoming)),
            !holds_frame(old(self)@.incoming) ==> r == Err::<Vec<u8>, CodecError>(
                CodecError::Truncated,
            ) && final(self)@.incoming == old(self)@.incoming,
    {
        let have = self.incoming.len();
        if have < HEADER_LEN {
            return Err(CodecError::Truncated);
        }
        let count = decode_u64(self.incoming.as_slice());
        let available = (have - HEADER_LEN) as u64;
        if available < count {
            return Err(CodecError::Truncated);
        }
        let end = HEADER_LEN + count as usize;
        let rest = self.incoming.split_off(end);
        let payload = self.incoming.split_off(HEADER_LEN);
        self.incoming = rest;
        Ok(payload)
    }

    /// Reads the next frame as UTF-8 text. A frame that is not well-formed
    /// UTF-8 is consumed and refused with `InvalidUtf8`.
    pub fn read_string(&mut self) -> (r: Result<String, CodecError>)
        ensures
            final(self)@.outgoing == old(self)@.outgoing,
            holds_frame(old(self)@.incoming) ==> final(self)@.incoming == after_first(
                old(self)@.incoming,
            ),
            holds_frame(old(self)@.incoming) && valid_utf8(first_payload(old(self)@.incoming))
                ==> (r matches Ok(s) && s@ == decode_utf8(first_payload(old(self)@.incoming))),
            holds_frame(old(self)@.incoming) && !valid_utf8(first_payload(old(self)@.incoming))
                ==> r == Err::<String, CodecError>(CodecError::InvalidUtf8),
            !holds_frame(old(self)@.incoming) ==> r == Err::<String, CodecError>(
                CodecError::Truncated,
            ) && final(self)@.incoming == old(self)@.incoming,
    {
        let bytes = match self.read_bytes() {
            Ok(b) => b,
            Err(e) => return Err(e),
        };
        match utf8_to_string(bytes) {
            Some(s) => Ok(s),
            None => Err(CodecError::InvalidUtf8),
        }
    }
}

/// Reading back a written frame gives the payload exactly, whatever bytes
/// follow it, and leaves those bytes to be read next.
pub proof fn lemma_frame_round_trip(payload: Seq<u8>, rest: Seq<u8>)
    requires
        payload.len() <= u64::MAX,
    ensures
        holds_frame(frame_of(payload) + rest),
        first_payload(frame_of(payload) + rest) == payload,
        after_first(frame_of(payload) + rest) == rest,
{
    let buf = frame_of(payload) + rest;
    lemma_be_u64_round_trip(payload.len() as u64);
    assert(buf.subrange(0, 8) =~= be_u64_bytes(payload.len() as u64));
    assert(declared_len(buf) == payload.len());
    assert(first_payload(buf) =~= payload);
    assert(after_first(buf) =~= rest);
}

/// A stream that ends anywhere before the end of a frame holds no whole
/// frame, so reading it fails as truncated rather than giving a short payload.
pub proof fn lemma_truncated_frame(payload: Seq<u8>, received: int)
    requires
        payload.len() <= u64::MAX,
        0 <= received < frame_of(payload).len(),
    ensures
        !holds_frame(frame_of(payload).take(received)),
{
    let buf = frame_of(payload).take(received);
    if received >= 8 {
        lemma_be_u64_round_trip(payload.len() as u64);
        assert(buf.subrange(0, 8) =~= be_u64_bytes(payload.len() as u64));
        assert(declared_len(buf) == payload.len());
    }
}

/// The frames of a sequence of payloads are the first payload's frame
/// followed by the frames of the others.
pub proof fn lemma_frames_first(payloads: Seq<Seq<u8>>)
    requires
        payloads.len() > 0,
    ensures
        frames_of(payloads) == frame_of(payloads[0]) + frames_of(payloads.drop_first()),
    decreases payloads.len(),
{
    if payloads.len() == 1 {
        assert(payloads.drop_first() =~= Seq::<Seq<u8>>::empty());
        assert(payloads.drop_last() =~= Seq::<Seq<u8>>::empty());
        assert(frames_of(payloads) =~= frame_of(payloads[0]) + frames_of(payloads.drop_first()));
    } else {
        let shorter = payloads.drop_last();
        lemma_frames_first(shorter);
        assert(shorter[0] == payloads[0]);
        assert(shorter.drop_first() =~= payloads.drop_first().drop_last());
        assert(payloads.drop_first().last() == payloads.last());
        assert(frames_of(payloads) =~= frame_of(payloads[0]) + frames_of(payloads.drop_first()));
    }
}

/// Reading back a bundle of frames, one frame at a time, gives each payload
/// in order, never merged or split; after the last one only the bytes that
/// followed the bundle are left.
pub proof fn lemma_bundle_round_trip(payloads: Seq<Seq<u8>>, rest: Seq<u8>)
    requires
        forall|i: int| 0 <= i < payloads.len() ==> (#[trigger] payloads[i]).len() <= u64::MAX,
    ensures
        frames_of(payloads.skip(0)) == frames_of(payloads),
        frames_of(payloads.skip(payloads.len() as int)) + rest == rest,
        forall|i: int|
            0 <= i < payloads.len() ==> {
                let buf = #[trigger] frames_of(payloads.skip(i)) + rest;
                &&& holds_frame(buf)
                &&& first_payload(buf) == payloads[i]
                &&& after_first(buf) == frames_of(payloads.skip(i + 1)) + rest
            },
{
    assert(payloads.skip(0) =~= payloads);
    assert(payloads.skip(payloads.len() as int) =~= Seq::<Seq<u8>>::empty());
    assert(Seq::<u8>::empty() + rest =~= rest);
    assert forall|i: int| 0 <= i < payloads.len() implies {
        let buf = #[trigger] frames_of(payloads.skip(i)) + rest;
        &&& holds_frame(buf)
        &&& first_payload(buf) == payloads[i]
        &&& after_first(buf) == frames_of(payloads.skip(i + 1)) + rest
    } by {
        let tail = payloads.skip(i);
        lemma_frames_first(tail);
        assert(tail[0] == payloads[i]);
        assert(tail.drop_first() =~= payloads.skip(i + 1));
        let later = frames_of(payloads.skip(i + 1)) + rest;
        lemma_frame_round_trip(payloads[i], later);
        assert(frames_of(tail) + rest =~= frame_of(payloads[i]) + later);
    }
}

} // verus!
