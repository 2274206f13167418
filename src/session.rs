//! The server side of a session: requests answered in any order, then the
//! envelope, then the end. The dispatcher takes one received frame at a time
//! and says what to do next; the owner of the connection moves the bytes.
use crate::codec::{bundle_view, utf8_to_string, BEGIN_MESSAGE, INFORMATION_REQUEST, PUBLIC_KEY_REQUEST};
use crate::simple_hpke::{
    decrypt_result, x25519_public_of, CryptoError, Hpke, Key, Private, Public, KEY_LEN,
};
use vstd::prelude::*;
use vstd::slice::slice_to_vec;
use vstd::string::*;
use vstd::utf8::valid_utf8;

verus! {

/// A request that a client may send before its envelope.
#[derive(Clone, Copy, Debug, PartialEq, Eq, Structural)]
pub enum Request {
    /// Asks for the server's serialized public key.
    PublicKey,
    /// Asks for the session's information string.
    Information,
    /// Announces that the four envelope frames follow.
    BeginMessage,
}

/// Why a session ended on a frame.
#[derive(Clone, Copy, Debug, PartialEq, Eq, Structural)]
pub enum SessionError {
    /// A request frame is not well-formed UTF-8.
    InvalidUtf8,
    /// A request frame is text but names no request.
    UnexpectedTag,
    /// The session has already ended.
    Finished,
}

impl Request {
    /// The request's frame on the wire.
    pub open spec fn tag(self) -> Seq<u8> {
        match self {
            Request::PublicKey => PUBLIC_KEY_REQUEST.spec_bytes(),
            Request::Information => INFORMATION_REQUEST.spec_bytes(),
            Request::BeginMessage => BEGIN_MESSAGE.spec_bytes(),
        }
    }

    /// The request's frame on the wire.
    pub fn as_bytes(&self) -> (r: &'static [u8])
        ensures
            r@ == self.tag(),
    {
        match self {
            Request::PublicKey => PUBLIC_KEY_REQUEST.as_bytes(),
            Request::Information => INFORMATION_REQUEST.as_bytes(),
            Request::BeginMessage => BEGIN_MESSAGE.as_bytes(),
        }
    }

    /// Decodes a request frame.
    pub fn from_frame(frame: &[u8]) -> (r: Result<Request, SessionError>)
        ensures
            r == parse_request(frame@),
    {
        if bytes_equal(frame, PUBLIC_KEY_REQUEST.as_bytes()) {
            Ok(Request::PublicKey)
        } else if bytes_equal(frame, INFORMATION_REQUEST.as_bytes()) {
            Ok(Request::Information)
        } else if bytes_equal(frame, BEGIN_MESSAGE.as_bytes()) {
            Ok(Request::BeginMessage)
        } else if utf8_to_string(slice_to_vec(frame)).is_some() {
            Err(SessionError::UnexpectedTag)
        } else {
            Err(SessionError::InvalidUtf8)
        }
    }
}

/// The request that a frame names; text that names none is an unexpected
/// tag, and bytes that are not UTF-8 are refused as such.
pub open spec fn parse_request(frame: Seq<u8>) -> Result<Request, SessionError> {
    if frame == Request::PublicKey.tag() {
        Ok(Request::PublicKey)
    } else if frame == Request::Information.tag() {
        Ok(Request::Information)
    } else if frame == Request::BeginMessage.tag() {
        Ok(Request::BeginMessage)
    } else if valid_utf8(frame) {
        Err(SessionError::UnexpectedTag)
    } else {
        Err(SessionError::InvalidUtf8)
    }
}

/// Whether two byte strings are equal.
fn bytes_equal(a: &[u8], b: &[u8]) -> (r: bool)
    ensures
        r == (a@ == b@),
{
    if a.len() != b.len() {
        return false;
    }
    let mut i: usize = 0;
    while i < a.len()
        invariant
            a@.len() == b@.len(),
            i <= a@.len(),
            forall|j: int| 0 <= j < i ==> a@[j] == b@[j],
        decreases a@.len() - i,
    {
        if a[i] != b[i] {
            return false;
        }
        i = i + 1;
    }
    assert(a@ =~= b@);
    true
}

/// The wire frames of the three requests are distinct, and each is text.
pub proof fn lemma_tags_distinct()
    ensures
        Request::PublicKey.tag() != Request::Information.tag(),
        Request::PublicKey.tag() != Request::BeginMessage.tag(),
        Request::Information.tag() != Request::BeginMessage.tag(),
{
    reveal_strlit("public_key");
    reveal_strlit("information request");
    reveal_strlit("begin message");
    broadcast use is_ascii_spec_bytes;

    assert(is_ascii(PUBLIC_KEY_REQUEST));
    assert(is_ascii(INFORMATION_REQUEST));
    assert(is_ascii(BEGIN_MESSAGE));
    assert(Request::PublicKey.tag().len() == 10);
    assert(Request::Information.tag().len() == 19);
    assert(Request::BeginMessage.tag().len() == 13);
}

/// Each request's frame decodes to that request.
pub proof fn lemma_parse_tag(r: Request)
    ensures
        parse_request(r.tag()) == Ok::<Request, SessionError>(r),
{
    lemma_tags_distinct();
}

/// Where a session stands.
#[derive(Clone, Copy, Debug, PartialEq, Eq, Structural)]
pub enum Phase {
    /// Answering requests until the client begins its message.
    AwaitingRequest,
    /// Collecting the four envelope frames.
    ReceivingEnvelope,
    /// Done: the envelope was delivered or a frame was refused.
    Terminated,
}

/// The four parts of an encrypted message, in their order on the wire.
#[derive(Debug)]
pub struct Envelope {
    pub encapsulated_key: Vec<u8>,
    pub ciphertext: Vec<u8>,
    pub tag: Vec<u8>,
    pub associated_data: Vec<u8>,
}

impl View for Envelope {
    type V = Seq<Seq<u8>>;

    open spec fn view(&self) -> Seq<Seq<u8>> {
        seq![self.encapsulated_key@, self.ciphertext@, self.tag@, self.associated_data@]
    }
}

impl Envelope {
    /// The frames a client sends to deliver the envelope: the begin-message
    /// request, then the four parts in order.
    pub fn frames(&self) -> (r: Vec<&[u8]>)
        ensures
            bundle_view(r@) == seq![Request::BeginMessage.tag()] + self@,
    {
        let r: Vec<&[u8]> = vec![
            BEGIN_MESSAGE.as_bytes(),
            self.encapsulated_key.as_slice(),
            self.ciphertext.as_slice(),
            self.tag.as_slice(),
            self.associated_data.as_slice(),
        ];
        assert(bundle_view(r@) =~= seq![Request::BeginMessage.tag()] + self@);
        r
    }
}

/// What a session holds: the public key and information it hands out, its
/// phase, and the envelope parts received so far.
pub struct SessionView {
    pub public_key: Seq<u8>,
    pub information: Seq<u8>,
    pub phase: Phase,
    pub parts: Seq<Seq<u8>>,
}

/// What a session does with one received frame.
pub enum Outcome {
    /// Send these bytes back as one frame.
    Reply(Seq<u8>),
    /// Send nothing; read the next frame.
    Wait,
    /// The envelope is complete.
    Deliver(Seq<Seq<u8>>),
    /// End the session without a reply.
    Fail(SessionError),
}

impl SessionView {
    /// Parts are collected only while receiving the envelope, at most three
    /// of them before the fourth completes it.
    pub open spec fn wf(self) -> bool {
        &&& self.parts.len() < 4
        &&& self.phase != Phase::ReceivingEnvelope ==> self.parts.len() == 0
    }

    /// The session's answer to `frame`.
    pub open spec fn outcome(self, frame: Seq<u8>) -> Outcome {
        match self.phase {
            Phase::AwaitingRequest => match parse_request(frame) {
                Ok(Request::PublicKey) => Outcome::Reply(self.public_key),
                Ok(Request::Information) => Outcome::Reply(self.information),
                Ok(Request::BeginMessage) => Outcome::Wait,
                Err(e) => Outcome::Fail(e),
            },
            Phase::ReceivingEnvelope => if self.parts.len() < 3 {
                Outcome::Wait
            } else {
                Outcome::Deliver(self.parts.push(frame))
            },
            Phase::Terminated => Outcome::Fail(SessionError::Finished),
        }
    }

    /// The session after `frame`.
    pub open spec fn next(self, frame: Seq<u8>) -> SessionView {
        match self.phase {
            Phase::AwaitingRequest => match parse_request(frame) {
                Ok(Request::BeginMessage) => SessionView {
                    phase: Phase::ReceivingEnvelope,
                    ..self
                },
                Ok(_) => self,
                Err(_) => SessionView { phase: Phase::Terminated, ..self },
            },
            Phase::ReceivingEnvelope => if self.parts.len() < 3 {
                SessionView { parts: self.parts.push(frame), ..self }
            } else {
                SessionView { phase: Phase::Terminated, parts: Seq::empty(), ..self }
            },
            Phase::Terminated => self,
        }
    }

    /// The session after each of `frames` in turn.
    pub open spec fn run(self, frames: Seq<Seq<u8>>) -> SessionView
        decreases frames.len(),
    {
        if frames.len() == 0 {
            self
        } else {
            self.next(frames[0]).run(frames.drop_first())
        }
    }
}

/// What the owner of the connection is told to do after a frame.
#[derive(Debug)]
pub enum Action {
    /// Send these bytes back as one frame.
    Reply(Vec<u8>),
    /// Send nothing; read the next frame.
    Wait,
    /// The envelope is complete; decrypt it and end the session.
    Deliver(Envelope),
}

/// The outcome that a result of `ServerSession::on_frame` stands for.
pub open spec fn outcome_of(r: Result<Action, SessionError>) -> Outcome {
    match r {
        Ok(Action::Reply(bytes)) => Outcome::Reply(bytes@),
        Ok(Action::Wait) => Outcome::Wait,
        Ok(Action::Deliver(envelope)) => Outcome::Deliver(envelope@),
        Err(e) => Outcome::Fail(e),
    }
}

/// One server session: its own key pair and information string, and the
/// dispatcher's state.
#[derive(Debug)]
pub struct ServerSession {
    private_key: Key<Private>,
    public_key: Key<Public>,
    information: Vec<u8>,
    phase: Phase,
    parts: Vec<Vec<u8>>,
}

impl View for ServerSession {
    type V = SessionView;

    closed spec fn view(&self) -> SessionView {
        SessionView {
            public_key: self.public_key@,
            information: self.information@,
            phase: self.phase,
            parts: self.parts@.map_values(|p: Vec<u8>| p@),
        }
    }
}

impl ServerSession {
    /// The serialized private key that decrypts the session's envelope.
    pub closed spec fn private_key(&self) -> Seq<u8> {
        self.private_key@
    }

    /// A session awaiting requests, with the given keys and information.
    pub fn new(
        private_key: Key<Private>,
        public_key: Key<Public>,
        information: Vec<u8>,
    ) -> (r: ServerSession)
        ensures
            r@ == (SessionView {
                public_key: public_key@,
                information: information@,
                phase: Phase::AwaitingRequest,
                parts: Seq::empty(),
            }),
            r.private_key() == private_key@,
    {
        let r = ServerSession {
            private_key,
            public_key,
            information,
            phase: Phase::AwaitingRequest,
            parts: Vec::new(),
        };
        assert(r@.parts =~= Seq::<Seq<u8>>::empty());
        r
    }

    /// A session awaiting requests, with a fresh key pair and the given
    /// information string.
    pub fn start(information: Vec<u8>) -> (r: Result<ServerSession, CryptoError>)
        ensures
            r matches Ok(s) ==> s@ == (SessionView {
                public_key: x25519_public_of(s.private_key()),
                information: information@,
                phase: Phase::AwaitingRequest,
                parts: Seq::empty(),
            }) && s.private_key().len() == KEY_LEN,
            r is Err ==> r == Err::<ServerSession, CryptoError>(
                CryptoError::RandomnessUnavailable,
            ),
    {
        match Hpke::generate_key_pair() {
            Ok((private_key, public_key)) => Ok(
                ServerSession::new(private_key, public_key, information),
            ),
            Err(e) => Err(e),
        }
    }

    /// Where the session stands.
    pub fn phase(&self) -> (r: Phase)
        ensures
            r == self@.phase,
    {
        self.phase
    }

    /// Takes one received frame and says what to do: reply, wait for the
    /// next frame, decrypt the completed envelope, or end the session.
    pub fn on_frame(&mut self, frame: Vec<u8>) -> (r: Result<Action, SessionError>)
        requires
            old(self)@.wf(),
        ensures
            final(self)@ == old(self)@.next(frame@),
            outcome_of(r) == old(self)@.outcome(frame@),
            final(self)@.wf(),
            final(self).private_key() == old(self).private_key(),
    {
        match self.phase {
            Phase::AwaitingRequest => match Request::from_frame(frame.as_slice()) {
                Ok(Request::PublicKey) => Ok(Action::Reply(self.public_key.as_bytes())),
                Ok(Request::Information) => {
                    let info = self.information.clone();
                    assert(info@ =~= self.information@);
                    Ok(Action::Reply(info))
                },
                Ok(Request::BeginMessage) => {
                    self.phase = Phase::ReceivingEnvelope;
                    Ok(Action::Wait)
                },
                Err(e) => {
                    self.phase = Phase::Terminated;
                    Err(e)
                },
            },
            Phase::ReceivingEnvelope => {
                if self.parts.len() < 3 {
                    self.parts.push(frame);
                    assert(self@.parts =~= old(self)@.parts.push(frame@));
                    Ok(Action::Wait)
                } else {
                    let ghost parts = old(self)@.parts;
                    let mut held: Vec<Vec<u8>> = Vec::new();
                    std::mem::swap(&mut held, &mut self.parts);
                    self.phase = Phase::Terminated;
                    assert(self@.parts =~= Seq::<Seq<u8>>::empty());
                    let tag = held.pop().unwrap();
                    let ciphertext = held.pop().unwrap();
                    let encapsulated_key = held.pop().unwrap();
                    let envelope = Envelope {
                        encapsulated_key,
                        ciphertext,
                        tag,
                        associated_data: frame,
                    };
                    assert(envelope@ =~= parts.push(frame@));
                    Ok(Action::Deliver(envelope))
                }
            },
            Phase::Terminated => Err(SessionError::Finished),
        }
    }

    /// Decrypts a delivered envelope with the session's private key and
    /// information string.
    pub fn decrypt(&self, envelope: &Envelope) -> (r: Result<Vec<u8>, CryptoError>)
        ensures
            decrypt_result(
                self.private_key(),
                envelope.encapsulated_key@,
                envelope.ciphertext@,
                envelope.associated_data@,
                envelope.tag@,
                self@.information,
                r,
            ),
    {
        let private = self.private_key.as_bytes();
        Hpke::decrypt(
            private.as_slice(),
            envelope.encapsulated_key.as_slice(),
            envelope.ciphertext.as_slice(),
            envelope.associated_data.as_slice(),
            envelope.tag.as_slice(),
            self.information.as_slice(),
        )
    }
}

/// Whether a frame asks for the public key or the information string.
pub open spec fn is_lookup(frame: Seq<u8>) -> bool {
    parse_request(frame) == Ok::<Request, SessionError>(Request::PublicKey) || parse_request(frame)
        == Ok::<Request, SessionError>(Request::Information)
}

/// Requests for the public key and the information string, in any order and
/// any number, leave an awaiting session as it was; so every such request
/// is answered with the same public key, or the same information string.
pub proof fn lemma_lookups_repeatable(s: SessionView, frames: Seq<Seq<u8>>)
    requires
        s.phase == Phase::AwaitingRequest,
        forall|i: int| 0 <= i < frames.len() ==> is_lookup(#[trigger] frames[i]),
    ensures
        forall|i: int| 0 <= i <= frames.len() ==> #[trigger] s.run(frames.take(i)) == s,
        forall|i: int|
            0 <= i < frames.len() ==> #[trigger] s.run(frames.take(i)).outcome(frames[i]) == (
            if parse_request(frames[i]) == Ok::<Request, SessionError>(Request::PublicKey) {
                Outcome::Reply(s.public_key)
            } else {
                Outcome::Reply(s.information)
            }),
    decreases frames.len(),
{
    if frames.len() > 0 {
        let rest = frames.drop_first();
        assert forall|i: int| 0 <= i < rest.len() implies is_lookup(#[trigger] rest[i]) by {
            assert(rest[i] == frames[i + 1]);
        }
        lemma_lookups_repeatable(s, rest);
        assert(is_lookup(frames[0]));
        assert forall|i: int| 0 <= i <= frames.len() implies #[trigger] s.run(frames.take(i))
            == s by {
            if i > 0 {
                let t = frames.take(i);
                assert(t[0] == frames[0]);
                assert(s.next(t[0]) == s);
                assert(t.drop_first() =~= rest.take(i - 1));
                assert(s.run(rest.take(i - 1)) == s);
                assert(s.run(t) == s.next(t[0]).run(t.drop_first()));
            } else {
                assert(frames.take(i).len() == 0);
            }
        }
    }
}

/// An awaiting session leaves that phase on the begin-message request and
/// on no other frame.
pub proof fn lemma_only_begin_leaves(s: SessionView, frame: Seq<u8>)
    requires
        s.phase == Phase::AwaitingRequest,
    ensures
        s.next(frame).phase == Phase::ReceivingEnvelope <==> frame == Request::BeginMessage.tag(),
        s.next(frame).phase == Phase::AwaitingRequest <==> is_lookup(frame),
{
    lemma_tags_distinct();
}

/// An awaiting session refuses text that names no request: it ends without
/// a reply, and answers nothing after that.
pub proof fn lemma_unexpected_tag_rejected(s: SessionView, frame: Seq<u8>, later: Seq<u8>)
    requires
        s.phase == Phase::AwaitingRequest,
        valid_utf8(frame),
        frame != Request::PublicKey.tag(),
        frame != Request::Information.tag(),
        frame != Request::BeginMessage.tag(),
    ensures
        s.outcome(frame) == Outcome::Fail(SessionError::UnexpectedTag),
        s.next(frame).phase == Phase::Terminated,
        s.next(frame).outcome(later) == Outcome::Fail(SessionError::Finished),
{
}

/// The frames of an envelope, sent to an awaiting session, deliver exactly
/// that envelope on the last frame and end the session.
pub proof fn lemma_envelope_delivered(s: SessionView, envelope: Seq<Seq<u8>>)
    requires
        s.phase == Phase::AwaitingRequest,
        s.wf(),
        envelope.len() == 4,
    ensures
        ({
            let frames = seq![Request::BeginMessage.tag()] + envelope;
            &&& s.run(frames.take(4)).outcome(frames[4]) == Outcome::Deliver(envelope)
            &&& s.run(frames).phase == Phase::Terminated
        }),
{
    let frames = seq![Request::BeginMessage.tag()] + envelope;
    lemma_parse_tag(Request::BeginMessage);
    let s1 = s.next(frames[0]);
    assert(s1.parts =~= Seq::<Seq<u8>>::empty());
    let s2 = s1.next(frames[1]);
    let s3 = s2.next(frames[2]);
    let s4 = s3.next(frames[3]);
    assert(s4.parts =~= envelope.take(3));
    assert(s4.parts.push(frames[4]) =~= envelope);
    let t = frames.take(4);
    let t1 = t.drop_first();
    let t2 = t1.drop_first();
    let t3 = t2.drop_first();
    let t4 = t3.drop_first();
    assert(t4 =~= Seq::<Seq<u8>>::empty());
    assert(s4.run(t4) == s4);
    assert(t3[0] == frames[3]);
    assert(s3.run(t3) == s4.run(t4));
    assert(t2[0] == frames[2]);
    assert(s2.run(t2) == s3.run(t3));
    assert(t1[0] == frames[1]);
    assert(s1.run(t1) == s2.run(t2));
    assert(t[0] == frames[0]);
    assert(s.run(t) == s1.run(t1));
    let f1 = frames.drop_first();
    let f2 = f1.drop_first();
    let f3 = f2.drop_first();
    let f4 = f3.drop_first();
    let f5 = f4.drop_first();
    let s5 = s4.next(frames[4]);
    assert(f5 =~= Seq::<Seq<u8>>::empty());
    assert(s5.run(f5) == s5);
    assert(f4[0] == frames[4]);
    assert(s4.run(f4) == s5.run(f5));
    assert(f3[0] == frames[3]);
    assert(s3.run(f3) == s4.run(f4));
    assert(f2[0] == frames[2]);
    assert(s2.run(f2) == s3.run(f3));
    assert(f1[0] == frames[1]);
    assert(s1.run(f1) == s2.run(f2));
    assert(s.run(frames) == s1.run(f1));
}

/// Start of every session's information string.
pub const INFORMATION_PREFIX: &'static str = "Session: ";

/// The decimal digits of `n` as ASCII bytes, most significant first.
pub open spec fn decimal(n: nat) -> Seq<u8>
    decreases n,
{
    if n < 10 {
        seq![(48 + n) as u8]
    } else {
        decimal(n / 10).push((48 + n % 10) as u8)
    }
}

/// The information string of the session with the given connection number.
pub open spec fn session_information(index: u64) -> Seq<u8> {
    INFORMATION_PREFIX.spec_bytes() + decimal(index as nat)
}

/// Appends the decimal digits of `n`.
fn push_decimal(out: &mut Vec<u8>, n: u64)
    ensures
        final(out)@ == old(out)@ + decimal(n as nat),
    decreases n,
{
    if n >= 10 {
        push_decimal(out, n / 10);
    }
    out.push((48 + n % 10) as u8);
    assert(out@ =~= old(out)@ + decimal(n as nat));
}

/// The information string of the session with the given connection number:
/// the prefix, then the number in decimal.
pub fn information_for(index: u64) -> (r: Vec<u8>)
    ensures
        r@ == session_information(index),
{
    let mut out = slice_to_vec(INFORMATION_PREFIX.as_bytes());
    push_decimal(&mut out, index);
    out
}

/// A number has at least one digit, and two from ten on.
proof fn lemma_decimal_len(n: nat)
    ensures
        decimal(n).len() >= 1,
        n >= 10 ==> decimal(n).len() >= 2,
    decreases n,
{
    if n >= 10 {
        lemma_decimal_len(n / 10);
    }
}

/// Different numbers have different digits.
proof fn lemma_decimal_injective(a: nat, b: nat)
    requires
        decimal(a) == decimal(b),
    ensures
        a == b,
    decreases a,
{
    lemma_decimal_len(a);
    lemma_decimal_len(b);
    if a < 10 && b < 10 {
        assert(decimal(a)[0] == (48 + a) as u8);
        assert(decimal(b)[0] == (48 + b) as u8);
        assert(decimal(a)[0] == decimal(b)[0]);
    } else if a >= 10 && b >= 10 {
        let da = decimal(a);
        let db = decimal(b);
        assert(da.last() == db.last());
        assert(da.last() == (48 + a % 10) as u8);
        assert(db.last() == (48 + b % 10) as u8);
        assert(a % 10 == b % 10);
        assert(da.drop_last() =~= decimal(a / 10));
        assert(db.drop_last() =~= decimal(b / 10));
        lemma_decimal_injective(a / 10, b / 10);
        assert(a == 10 * (a / 10) + a % 10);
        assert(b == 10 * (b / 10) + b % 10);
    }
}

/// Sessions with different connection numbers get different information
/// strings.
pub proof fn lemma_information_distinct(a: u64, b: u64)
    requires
        a != b,
    ensures
        session_information(a) != session_information(b),
{
    if session_information(a) == session_information(b) {
        let n = INFORMATION_PREFIX.spec_bytes().len() as int;
        let sa = session_information(a);
        let sb = session_information(b);
        assert(sa.subrange(n, sa.len() as int) =~= decimal(a as nat));
        assert(sb.subrange(n, sb.len() as int) =~= decimal(b as nat));
        lemma_decimal_injective(a as nat, b as nat);
    }
}

} // verus!
