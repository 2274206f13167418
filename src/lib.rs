//! Session wire protocol for delivering one hybrid-encrypted message over a
//! byte stream: length-prefixed framing, the server's request dispatcher, the
//! envelope layout, and the calls into the HPKE suite.
pub mod codec;
pub mod input;
pub mod linecodec;
pub mod session;
pub mod simple_hpke;

pub use codec::{Codec, CodecError, BEGIN_MESSAGE, INFORMATION_REQUEST, PUBLIC_KEY_REQUEST};
pub use linecodec::LineCodec;
pub use session::{Action, Envelope, Phase, Request, ServerSession, SessionError};
pub use simple_hpke::{
    CryptoError, Hpke, Key, KeyKind, Private, Public, SimpleHpke, SimplePrivateKey, SimplePublicKey,
};
