//! The hybrid encryption suite that protects the envelope: DHKEM(X25519,
//! HKDF-SHA256) with HKDF-SHA256 and ChaCha20Poly1305, in base mode. The
//! cryptography itself is the `hpke` crate's; this module fixes the suite,
//! keeps keys as their serialized bytes, checks input lengths, and turns the
//! crate's failures into `CryptoError`.
use hpke::aead::{AeadTag, ChaCha20Poly1305};
use hpke::kdf::HkdfSha256;
use hpke::kem::X25519HkdfSha256;
use hpke::{Deserializable, HpkeError, Kem, OpModeR, OpModeS, Serializable};
use rand::rngs::{OsRng, StdRng};
use rand::SeedableRng;
use vstd::prelude::*;
use vstd::slice::slice_to_vec;

verus! {

/// Length of a serialized X25519 public or private key.
pub const KEY_LEN: usize = 32;

/// Length of a serialized encapsulated key.
pub const ENCAPPED_KEY_LEN: usize = 32;

/// Length of a ChaCha20Poly1305 authentication tag.
pub const TAG_LEN: usize = 16;

#[verifier::external_type_specification]
#[verifier::external_body]
pub struct ExHpkeError(HpkeError);

#[verifier::external_type_specification]
#[verifier::external_body]
pub struct ExStdRng(StdRng);

/// Relies on rand's `SeedableRng::from_rng` with `OsRng`: a `StdRng` seeded
/// from the operating system, or nothing when the system cannot provide
/// randomness.
#[verifier::external_body]
fn seeded_rng() -> (r: Option<StdRng>) {
    StdRng::from_rng(OsRng).ok()
}

/// The serialized X25519 public key that belongs to a serialized private
/// key (hpke's `Kem::sk_to_pk`, which derives the public key from the
/// private one).
pub uninterp spec fn x25519_public_of(private: Seq<u8>) -> Seq<u8>;

/// What hpke's base-mode open gives for a serialized private key, a
/// serialized encapsulated key, the information string, the associated
/// data, a ciphertext and a serialized tag: the plaintext, or nothing when
/// decapsulation or authentication fails. It uses no randomness.
pub uninterp spec fn hpke_open(
    private: Seq<u8>,
    encapped: Seq<u8>,
    info: Seq<u8>,
    aad: Seq<u8>,
    ciphertext: Seq<u8>,
    tag: Seq<u8>,
) -> Option<Seq<u8>>;

/// Relies on hpke's `Kem::gen_keypair` for X25519HkdfSha256: a fresh
/// (private, public) pair, whose public key is derived from the private one,
/// each serialized by `Serializable::to_bytes` to 32 bytes.
#[verifier::external_body]
fn x25519_key_pair(rng: &mut StdRng) -> (r: (Vec<u8>, Vec<u8>))
    ensures
        r.0@.len() == KEY_LEN,
        r.1@.len() == KEY_LEN,
        r.1@ == x25519_public_of(r.0@),
{
    let (private, public) = X25519HkdfSha256::gen_keypair(rng);
    (private.to_bytes().to_vec(), public.to_bytes().to_vec())
}

/// Relies on hpke's `Deserializable::from_bytes` for the X25519 public key,
/// which accepts exactly the 32-byte inputs.
#[verifier::external_body]
fn check_public_key(bytes: &[u8]) -> (r: Result<(), HpkeError>)
    ensures
        r is Ok <==> bytes@.len() == KEY_LEN,
{
    <X25519HkdfSha256 as Kem>::PublicKey::from_bytes(bytes).map(|_| ())
}

/// Relies on hpke's `Deserializable::from_bytes` for the X25519 private key,
/// which accepts exactly the 32-byte inputs.
#[verifier::external_body]
fn check_private_key(bytes: &[u8]) -> (r: Result<(), HpkeError>)
    ensures
        r is Ok <==> bytes@.len() == KEY_LEN,
{
    <X25519HkdfSha256 as Kem>::PrivateKey::from_bytes(bytes).map(|_| ())
}

/// Relies on hpke's `Deserializable::from_bytes` for the X25519 encapsulated
/// key, which accepts exactly the 32-byte inputs.
#[verifier::external_body]
fn check_encapped_key(bytes: &[u8]) -> (r: Result<(), HpkeError>)
    ensures
        r is Ok <==> bytes@.len() == ENCAPPED_KEY_LEN,
{
    <X25519HkdfSha256 as Kem>::EncappedKey::from_bytes(bytes).map(|_| ())
}

/// Relies on hpke's `Deserializable::from_bytes` for `AeadTag` of
/// ChaCha20Poly1305, which accepts exactly the 16-byte inputs.
#[verifier::external_body]
fn check_tag(bytes: &[u8]) -> (r: Result<(), HpkeError>)
    ensures
        r is Ok <==> bytes@.len() == TAG_LEN,
{
    AeadTag::<ChaCha20Poly1305>::from_bytes(bytes).map(|_| ())
}

/// Whether opening with any private key of `recipient` gives `plaintext`
/// back from what a seal produced.
pub open spec fn opens_to(
    recipient: Seq<u8>,
    encapped: Seq<u8>,
    info: Seq<u8>,
    aad: Seq<u8>,
    ciphertext: Seq<u8>,
    tag: Seq<u8>,
    plaintext: Seq<u8>,
) -> bool {
    forall|private: Seq<u8>|
        private.len() == KEY_LEN && #[trigger] x25519_public_of(private) == recipient ==> hpke_open(
            private,
            encapped,
            info,
            aad,
            ciphertext,
            tag,
        ) == Some(plaintext)
}

/// Relies on hpke's `single_shot_seal_in_place_detached` in base mode:
/// encapsulates a fresh shared secret to the recipient's key (decoded from
/// its 32 bytes), encrypts `buf` in place, which keeps its length, and
/// returns the 32-byte encapsulated key and the 16-byte tag, serialized;
/// the recipient's private key opens the result back to the plaintext.
#[verifier::external_body]
fn seal_base(
    recipient: &[u8],
    info: &[u8],
    buf: &mut Vec<u8>,
    aad: &[u8],
    rng: &mut StdRng,
) -> (r: Result<(Vec<u8>, Vec<u8>), HpkeError>)
    requires
        recipient@.len() == KEY_LEN,
    ensures
        final(buf)@.len() == old(buf)@.len(),
        r matches Ok((encapped, tag)) ==> encapped@.len() == ENCAPPED_KEY_LEN && tag@.len()
            == TAG_LEN,
        r matches Ok((encapped, tag)) ==> opens_to(
            recipient@,
            encapped@,
            info@,
            aad@,
            final(buf)@,
            tag@,
            old(buf)@,
        ),
{
    let recipient = <X25519HkdfSha256 as Kem>::PublicKey::from_bytes(recipient)?;
    let (encapped, tag) = hpke::single_shot_seal_in_place_detached::<
        ChaCha20Poly1305,
        HkdfSha256,
        X25519HkdfSha256,
        _,
    >(&OpModeS::Base, &recipient, info, buf.as_mut_slice(), aad, rng)?;
    Ok((encapped.to_bytes().to_vec(), tag.to_bytes().to_vec()))
}

/// Relies on hpke's `single_shot_open_in_place_detached` in base mode:
/// decapsulates the shared secret from the private key and the encapsulated
/// key (each decoded from its 32 bytes), checks the tag (decoded from its 16
/// bytes) over `buf` and `aad`, and decrypts `buf` in place, which keeps its
/// length. The outcome depends on the six inputs alone.
#[verifier::external_body]
fn open_base(
    private: &[u8],
    encapped: &[u8],
    info: &[u8],
    buf: &mut Vec<u8>,
    aad: &[u8],
    tag: &[u8],
) -> (r: Result<(), HpkeError>)
    requires
        private@.len() == KEY_LEN,
        encapped@.len() == ENCAPPED_KEY_LEN,
        tag@.len() == TAG_LEN,
    ensures
        final(buf)@.len() == old(buf)@.len(),
        r is Ok <==> hpke_open(private@, encapped@, info@, aad@, old(buf)@, tag@) is Some,
        r is Ok ==> hpke_open(private@, encapped@, info@, aad@, old(buf)@, tag@) == Some(
            final(buf)@,
        ),
{
    let private = <X25519HkdfSha256 as Kem>::PrivateKey::from_bytes(private)?;
    let encapped = <X25519HkdfSha256 as Kem>::EncappedKey::from_bytes(encapped)?;
    let tag = AeadTag::<ChaCha20Poly1305>::from_bytes(tag)?;
    hpke::single_shot_open_in_place_detached::<ChaCha20Poly1305, HkdfSha256, X25519HkdfSha256>(
        &OpModeR::Base,
        &private,
        &encapped,
        info,
        buf.as_mut_slice(),
        aad,
        &tag,
    )
}

/// Why an encryption-suite operation failed.
#[derive(Clone, Copy, Debug, PartialEq, Eq, Structural)]
pub enum CryptoError {
    /// The system could not seed a random generator.
    RandomnessUnavailable,
    /// A public or private key is not 32 bytes.
    MalformedKey,
    /// An encapsulated key is not 32 bytes.
    MalformedEncapsulatedKey,
    /// A tag is not 16 bytes.
    MalformedTag,
    /// No shared secret could be encapsulated to the recipient's key, or
    /// the plaintext could not be sealed.
    EncryptionFailed,
    /// No shared secret could be decapsulated from the encapsulated key, or
    /// the tag does not authenticate the ciphertext and associated data.
    DecryptionFailed,
}

/// What `Hpke::decrypt` returns for its six inputs: each malformed input in
/// turn is refused; otherwise the result is hpke's open, as long as the
/// ciphertext, or `DecryptionFailed` when that fails.
pub open spec fn decrypt_result(
    private: Seq<u8>,
    encapped: Seq<u8>,
    ciphertext: Seq<u8>,
    aad: Seq<u8>,
    tag: Seq<u8>,
    info: Seq<u8>,
    r: Result<Vec<u8>, CryptoError>,
) -> bool {
    if private.len() != KEY_LEN {
        r == Err::<Vec<u8>, CryptoError>(CryptoError::MalformedKey)
    } else if tag.len() != TAG_LEN {
        r == Err::<Vec<u8>, CryptoError>(CryptoError::MalformedTag)
    } else if encapped.len() != ENCAPPED_KEY_LEN {
        r == Err::<Vec<u8>, CryptoError>(CryptoError::MalformedEncapsulatedKey)
    } else {
        match hpke_open(private, encapped, info, aad, ciphertext, tag) {
            Some(p) => r matches Ok(q) && q@ == p && q@.len() == ciphertext.len(),
            None => r == Err::<Vec<u8>, CryptoError>(CryptoError::DecryptionFailed),
        }
    }
}

/// What `Hpke::encrypt` promises of a successful result: the lengths of the
/// suite, a ciphertext as long as the message, and that every private key
/// of the recipient opens it back to the message under the same
/// information string and associated data.
pub open spec fn sealed_for(
    recipient: Seq<u8>,
    msg: Seq<u8>,
    aad: Seq<u8>,
    info: Seq<u8>,
    encapped: Seq<u8>,
    ciphertext: Seq<u8>,
    tag: Seq<u8>,
) -> bool {
    &&& encapped.len() == ENCAPPED_KEY_LEN
    &&& ciphertext.len() == msg.len()
    &&& tag.len() == TAG_LEN
    &&& opens_to(recipient, encapped, info, aad, ciphertext, tag, msg)
}

/// The two kinds of serialized key, each with its own decoder.
pub trait KeyKind: Sized {
    /// Checks that `bytes` decode as a key of this kind.
    fn check(bytes: &[u8]) -> (r: Result<(), HpkeError>)
        ensures
            r is Ok <==> bytes@.len() == KEY_LEN,
    ;
}

/// Marks a public key.
#[derive(Debug)]
pub struct Public;

/// Marks a private key.
#[derive(Debug)]
pub struct Private;

impl KeyKind for Public {
    fn check(bytes: &[u8]) -> (r: Result<(), HpkeError>) {
        check_public_key(bytes)
    }
}

impl KeyKind for Private {
    fn check(bytes: &[u8]) -> (r: Result<(), HpkeError>) {
        check_private_key(bytes)
    }
}

/// A key of the suite, kept as its 32 serialized bytes.
#[derive(Debug)]
pub struct Key<K: KeyKind> {
    bytes: Vec<u8>,
    kind: core::marker::PhantomData<K>,
}

/// A public key of the suite.
pub type SimplePublicKey = Key<Public>;

/// A private key of the suite.
pub type SimplePrivateKey = Key<Private>;

impl<K: KeyKind> View for Key<K> {
    type V = Seq<u8>;

    closed spec fn view(&self) -> Seq<u8> {
        self.bytes@
    }
}

impl<K: KeyKind> Key<K> {
    /// Every key holds exactly the suite's key length.
    #[verifier::type_invariant]
    spec fn inv(&self) -> bool {
        self.bytes@.len() == KEY_LEN
    }

    /// The serialized key, 32 bytes.
    pub fn as_bytes(&self) -> (r: Vec<u8>)
        ensures
            r@ == self@,
            r@.len() == KEY_LEN,
    {
        proof {
            use_type_invariant(self);
        }
        let r = self.bytes.clone();
        assert(r@ =~= self@);
        r
    }

    /// Reads a serialized key of this kind; it must be 32 bytes.
    pub fn from_bytes(bytes: &[u8]) -> (r: Result<Key<K>, CryptoError>)
        ensures
            r is Ok <==> bytes@.len() == KEY_LEN,
            r matches Ok(k) ==> k@ == bytes@,
            r is Err ==> r == Err::<Key<K>, CryptoError>(CryptoError::MalformedKey),
    {
        match K::check(bytes) {
            Ok(()) => Ok(Key { bytes: slice_to_vec(bytes), kind: core::marker::PhantomData }),
            Err(_) => Err(CryptoError::MalformedKey),
        }
    }
}

/// The suite's operations: key generation, encryption to a public key, and
/// decryption with the matching private key.
pub struct Hpke;

/// The suite that sessions use.
pub type SimpleHpke = Hpke;

impl Hpke {
    /// A fresh (private, public) key pair; the public key is the one that
    /// belongs to the private key.
    pub fn generate_key_pair() -> (r: Result<(Key<Private>, Key<Public>), CryptoError>)
        ensures
            r matches Ok((private, public)) ==> private@.len() == KEY_LEN && public@.len()
                == KEY_LEN && public@ == x25519_public_of(private@),
            r is Err ==> r == Err::<(Key<Private>, Key<Public>), CryptoError>(
                CryptoError::RandomnessUnavailable,
            ),
    {
        let mut rng = match seeded_rng() {
            Some(rng) => rng,
            None => return Err(CryptoError::RandomnessUnavailable),
        };
        let (private, public) = x25519_key_pair(&mut rng);
        Ok((
            Key { bytes: private, kind: core::marker::PhantomData },
            Key { bytes: public, kind: core::marker::PhantomData },
        ))
    }

    /// Encrypts `msg` to the holder of `server_public_key`, binding
    /// `associated_data` and `information_str` to it. Returns the
    /// encapsulated key, the ciphertext (as long as `msg`) and the tag.
    pub fn encrypt(
        msg: &[u8],
        associated_data: &[u8],
        server_public_key: &[u8],
        information_str: &[u8],
    ) -> (r: Result<(Vec<u8>, Vec<u8>, Vec<u8>), CryptoError>)
        ensures
            r == Err::<(Vec<u8>, Vec<u8>, Vec<u8>), CryptoError>(CryptoError::MalformedKey)
                <==> server_public_key@.len() != KEY_LEN,
            r matches Ok((encapped, ciphertext, tag)) ==> sealed_for(
                server_public_key@,
                msg@,
                associated_data@,
                information_str@,
                encapped@,
                ciphertext@,
                tag@,
            ),
            r matches Err(e) ==> e == CryptoError::MalformedKey || e
                == CryptoError::RandomnessUnavailable || e == CryptoError::EncryptionFailed,
    {
        if check_public_key(server_public_key).is_err() {
            return Err(CryptoError::MalformedKey);
        }
        let mut rng = match seeded_rng() {
            Some(rng) => rng,
            None => return Err(CryptoError::RandomnessUnavailable),
        };
        let mut buf = slice_to_vec(msg);
        match seal_base(server_public_key, information_str, &mut buf, associated_data, &mut rng) {
            Ok((encapped, tag)) => Ok((encapped, buf, tag)),
            Err(_) => Err(CryptoError::EncryptionFailed),
        }
    }

    /// Decrypts `ciphertext` with `server_secret_key`, checking `tag` over it
    /// and `associated_data`. The private key, then the tag, then the
    /// encapsulated key must have their serialized lengths.
    pub fn decrypt(
        server_secret_key: &[u8],
        encapped_key_bytes: &[u8],
        ciphertext: &[u8],
        associated_data: &[u8],
        tag_bytes: &[u8],
        information_str: &[u8],
    ) -> (r: Result<Vec<u8>, CryptoError>)
        ensures
            decrypt_result(
                server_secret_key@,
                encapped_key_bytes@,
                ciphertext@,
                associated_data@,
                tag_bytes@,
                information_str@,
                r,
            ),
    {
        if check_private_key(server_secret_key).is_err() {
            return Err(CryptoError::MalformedKey);
        }
        if check_tag(tag_bytes).is_err() {
            return Err(CryptoError::MalformedTag);
        }
        if check_encapped_key(encapped_key_bytes).is_err() {
            return Err(CryptoError::MalformedEncapsulatedKey);
        }
        let mut buf = slice_to_vec(ciphertext);
        match open_base(
            server_secret_key,
            encapped_key_bytes,
            information_str,
            &mut buf,
            associated_data,
            tag_bytes,
        ) {
            Ok(()) => Ok(buf),
            Err(_) => Err(CryptoError::DecryptionFailed),
        }
    }
}

/// What is encrypted to a public key decrypts, with the private key it
/// belongs to and the same associated data and information string, to the
/// message exactly.
pub proof fn lemma_encrypt_decrypt_round_trip(
    private: Seq<u8>,
    public: Seq<u8>,
    msg: Seq<u8>,
    aad: Seq<u8>,
    info: Seq<u8>,
    encapped: Seq<u8>,
    ciphertext: Seq<u8>,
    tag: Seq<u8>,
    r: Result<Vec<u8>, CryptoError>,
)
    requires
        private.len() == KEY_LEN,
        public == x25519_public_of(private),
        sealed_for(public, msg, aad, info, encapped, ciphertext, tag),
        decrypt_result(private, encapped, ciphertext, aad, tag, info, r),
    ensures
        r matches Ok(p) && p@ == msg,
{
    assert(hpke_open(private, encapped, info, aad, ciphertext, tag) == Some(msg));
}

} // verus!
