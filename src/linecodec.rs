//! The server's framing endpoint: the same length-prefixed frames as
//! `Codec`, under the name the server side uses.
use crate::codec::{
    after_first, bundle_view, bytes_needed, first_payload, frame_of, frames_of, holds_frame, Codec,
    CodecError, CodecView,
};
use vstd::prelude::*;
use vstd::utf8::{decode_utf8, valid_utf8};

verus! {

/// Frames messages for one duplex stream endpoint, as `Codec` does.
#[derive(Debug)]
pub struct LineCodec {
    inner: Codec,
}

impl View for LineCodec {
    type V = CodecView;

    closed spec fn view(&self) -> CodecView {
        self.inner@
    }
}

impl LineCodec {
    /// A codec with nothing written and nothing received.
    pub fn new() -> (r: LineCodec)
        ensures
            r@.outgoing == Seq::<u8>::empty(),
            r@.incoming == Seq::<u8>::empty(),
    {
        LineCodec { inner: Codec::new() }
    }

    /// Appends one frame holding `msg`.
    pub fn write_bytes(&mut self, msg: &[u8])
        requires
            old(self)@.outgoing.len() + 8 + msg@.len() <= usize::MAX,
        ensures
            final(self)@.outgoing == old(self)@.outgoing + frame_of(msg@),
            final(self)@.incoming == old(self)@.incoming,
    {
        self.inner.write_bytes(msg)
    }

    /// Appends one frame for each entry of `bundle`, in order.
    pub fn write_bundled_bytes(&mut self, bundle: Vec<&[u8]>)
        requires
            old(self)@.outgoing.len() + frames_of(bundle_view(bundle@)).len() <= usize::MAX,
        ensures
            final(self)@.outgoing == old(self)@.outgoing + frames_of(bundle_view(bundle@)),
            final(self)@.incoming == old(self)@.incoming,
    {
        self.inner.write_bundled_bytes(bundle)
    }

    /// Hands out everything written so far and empties the outgoing buffer.
    pub fn take_outgoing(&mut self) -> (r: Vec<u8>)
        ensures
            r@ == old(self)@.outgoing,
            final(self)@.outgoing == Seq::<u8>::empty(),
            final(self)@.incoming == old(self)@.incoming,
    {
        self.inner.take_outgoing()
    }

    /// Appends bytes received from the transport.
    pub fn feed(&mut self, bytes: &[u8])
        requires
            old(self)@.incoming.len() + bytes@.len() <= usize::MAX,
        ensures
            final(self)@.incoming == old(self)@.incoming + bytes@,
            final(self)@.outgoing == old(self)@.outgoing,
    {
        self.inner.feed(bytes)
    }

    /// How many more bytes must be received before the next frame is whole.
    pub fn needed(&self) -> (r: u64)
        ensures
            r as int == bytes_needed(self@.incoming),
    {
        self.inner.needed()
    }

    /// Reads the next frame, or fails as truncated and consumes nothing.
    pub fn read_bytes(&mut self) -> (r: Result<Vec<u8>, CodecError>)
        ensures
            final(self)@.outgoing == old(self)@.outgoing,
            holds_frame(old(self)@.incoming) ==> (r matches Ok(p) && p@ == first_payload(
                old(self)@.incoming,
            ) && final(self)@.incoming == after_first(old(self)@.incoming)),
            !holds_frame(old(self)@.incoming) ==> r == Err::<Vec<u8>, CodecError>(
                CodecError::Truncated,
            ) && final(self)@.incoming == old(self)@.incoming,
    {
        self.inner.read_bytes()
    }

    /// Reads the next frame as UTF-8 text.
    pub fn read_string(&mut self) -> (r: Result<String, CodecError>)
        ensures
            final(self)@.outgoing == old(self)@.outgoing,
            holds_frame(old(self)@.incoming) ==> final(self)@.incoming == after_first(
                old(self)@.incoming,
            ),
            holds_frame(old(self)@.incoming) && valid_utf8(first_payload(old(self)@.incoming))
                ==> (r matches Ok(s) && s@ == decode_utf8(first_payload(old(self)@.incoming))),
            holds_frame(old(self)@.incoming) && !valid_utf8(first_payload(old(self)@.incoming))
                ==> r == Err::<String, CodecError>(CodecError::InvalidUtf8),
            !holds_frame(old(self)@.incoming) ==> r == Err::<String, CodecError>(
                CodecError::Truncated,
            ) && final(self)@.incoming == old(self)@.incoming,
    {
        self.inner.read_string()
    }
}

} // verus!
