use shared::input::strip_line_ending;
use shared::session::information_for;
use shared::{
    Action, Codec, Envelope, Hpke, LineCodec, Phase, Request, ServerSession, SessionError,
    SimplePrivateKey, SimplePublicKey,
    BEGIN_MESSAGE, INFORMATION_REQUEST, PUBLIC_KEY_REQUEST,
};

fn fixed_session(info: &[u8]) -> ServerSession {
    let private = SimplePrivateKey::from_bytes(&[1u8; 32]).unwrap();
    let public = SimplePublicKey::from_bytes(&[2u8; 32]).unwrap();
    ServerSession::new(private, public, info.to_vec())
}

fn reply(r: Result<Action, SessionError>) -> Vec<u8> {
    match r {
        Ok(Action::Reply(b)) => b,
        other => panic!("expected a reply, got {:?}", other),
    }
}

#[test]
fn requests_parse_from_wire_text() {
    assert_eq!(Request::from_frame(b"public_key"), Ok(Request::PublicKey));
    assert_eq!(Request::from_frame(b"information request"), Ok(Request::Information));
    assert_eq!(Request::from_frame(b"begin message"), Ok(Request::BeginMessage));
    assert_eq!(Request::from_frame(b"public key"), Err(SessionError::UnexpectedTag));
    assert_eq!(Request::from_frame(b""), Err(SessionError::UnexpectedTag));
    assert_eq!(Request::from_frame(&[0xc3]), Err(SessionError::InvalidUtf8));
    assert_eq!(Request::PublicKey.as_bytes(), PUBLIC_KEY_REQUEST.as_bytes());
    assert_eq!(Request::Information.as_bytes(), INFORMATION_REQUEST.as_bytes());
    assert_eq!(Request::BeginMessage.as_bytes(), BEGIN_MESSAGE.as_bytes());
}

#[test]
fn repeated_requests_give_the_same_answers() {
    let mut s = fixed_session(b"Session: 3");
    for _ in 0..3 {
        assert_eq!(reply(s.on_frame(b"information request".to_vec())), b"Session: 3".to_vec());
        assert_eq!(reply(s.on_frame(b"public_key".to_vec())), vec![2u8; 32]);
        assert_eq!(s.phase(), Phase::AwaitingRequest);
    }
}

#[test]
fn unexpected_tag_ends_session_without_reply() {
    let mut s = fixed_session(b"i");
    assert_eq!(s.on_frame(b"hello".to_vec()).unwrap_err(), SessionError::UnexpectedTag);
    assert_eq!(s.phase(), Phase::Terminated);
    assert_eq!(s.on_frame(b"public_key".to_vec()).unwrap_err(), SessionError::Finished);
}

#[test]
fn invalid_utf8_request_ends_session() {
    let mut s = fixed_session(b"i");
    assert_eq!(s.on_frame(vec![0xff]).unwrap_err(), SessionError::InvalidUtf8);
    assert_eq!(s.phase(), Phase::Terminated);
}

#[test]
fn envelope_collected_after_begin_message() {
    let mut s = fixed_session(b"i");
    assert!(matches!(s.on_frame(b"begin message".to_vec()), Ok(Action::Wait)));
    assert_eq!(s.phase(), Phase::ReceivingEnvelope);
    // request text is only envelope data now
    assert!(matches!(s.on_frame(b"public_key".to_vec()), Ok(Action::Wait)));
    assert!(matches!(s.on_frame(b"ct".to_vec()), Ok(Action::Wait)));
    assert!(matches!(s.on_frame(b"tag".to_vec()), Ok(Action::Wait)));
    match s.on_frame(b"ad".to_vec()) {
        Ok(Action::Deliver(e)) => {
            assert_eq!(e.encapsulated_key, b"public_key".to_vec());
            assert_eq!(e.ciphertext, b"ct".to_vec());
            assert_eq!(e.tag, b"tag".to_vec());
            assert_eq!(e.associated_data, b"ad".to_vec());
        }
        other => panic!("expected delivery, got {:?}", other),
    }
    assert_eq!(s.phase(), Phase::Terminated);
    assert_eq!(s.on_frame(b"x".to_vec()).unwrap_err(), SessionError::Finished);
}

#[test]
fn information_strings() {
    assert_eq!(information_for(0), b"Session: 0".to_vec());
    assert_eq!(information_for(42), b"Session: 42".to_vec());
    assert_eq!(information_for(10), b"Session: 10".to_vec());
    assert_eq!(information_for(u64::MAX), b"Session: 18446744073709551615".to_vec());
    assert_ne!(information_for(1), information_for(11));
}

#[test]
fn strip_line_endings() {
    assert_eq!(strip_line_ending(b"hello\r\n".to_vec()), b"hello".to_vec());
    assert_eq!(strip_line_ending(b"hello\n".to_vec()), b"hello".to_vec());
    assert_eq!(strip_line_ending(b"hello".to_vec()), b"hello".to_vec());
    assert_eq!(strip_line_ending(b"a\n\n".to_vec()), b"a\n".to_vec());
    assert_eq!(strip_line_ending(b"\r".to_vec()), Vec::<u8>::new());
    assert_eq!(strip_line_ending(Vec::new()), Vec::<u8>::new());
}

/// Runs one client exchange against a server session, moving bytes between
/// the two codecs; returns what the server decrypted and the information
/// string the client saw.
fn exchange(
    server: &mut ServerSession,
    server_io: &mut LineCodec,
    client_io: &mut Codec,
    message: &[u8],
    associated: &[u8],
) -> (Vec<u8>, Vec<u8>) {
    let mut pump = |server: &mut ServerSession, server_io: &mut LineCodec, client_io: &mut Codec| {
        server_io.feed(&client_io.take_outgoing());
        let mut delivered = None;
        while server_io.needed() == 0 {
            let frame = server_io.read_bytes().unwrap();
            match server.on_frame(frame).unwrap() {
                Action::Reply(b) => server_io.write_bytes(&b),
                Action::Wait => {}
                Action::Deliver(e) => delivered = Some(e),
            }
        }
        client_io.feed(&server_io.take_outgoing());
        delivered
    };
    client_io.write_bytes(PUBLIC_KEY_REQUEST.as_bytes());
    pump(server, server_io, client_io);
    let public = SimplePublicKey::from_bytes(&client_io.read_bytes().unwrap()).unwrap();
    client_io.write_bytes(INFORMATION_REQUEST.as_bytes());
    pump(server, server_io, client_io);
    let information = client_io.read_string().unwrap();
    let (encapsulated_key, ciphertext, tag) =
        Hpke::encrypt(message, associated, &public.as_bytes(), information.as_bytes()).unwrap();
    let envelope = Envelope {
        encapsulated_key,
        ciphertext,
        tag,
        associated_data: associated.to_vec(),
    };
    client_io.write_bundled_bytes(envelope.frames());
    let delivered: Envelope = pump(server, server_io, client_io).unwrap();
    assert_eq!(delivered.associated_data, associated.to_vec());
    (server.decrypt(&delivered).unwrap(), information.into_bytes())
}

#[test]
fn full_session_delivers_message() {
    let (private, public) = Hpke::generate_key_pair().unwrap();
    let mut server = ServerSession::new(private, public, information_for(0));
    let mut server_io = LineCodec::new();
    let mut client_io = Codec::new();
    let (plain, info) = exchange(
        &mut server,
        &mut server_io,
        &mut client_io,
        b"Hello world!",
        b"I am attached to you.",
    );
    assert_eq!(plain, b"Hello world!".to_vec());
    assert_eq!(info, b"Session: 0".to_vec());
    assert_eq!(server.phase(), Phase::Terminated);
}

#[test]
fn started_session_serves_its_own_key() {
    let mut server = ServerSession::start(information_for(7)).unwrap();
    assert_eq!(server.phase(), Phase::AwaitingRequest);
    let public = reply(server.on_frame(b"public_key".to_vec()));
    assert_eq!(public.len(), 32);
    assert_eq!(reply(server.on_frame(b"information request".to_vec())), b"Session: 7".to_vec());
    let (encapsulated_key, ciphertext, tag) =
        Hpke::encrypt(b"secret", b"assoc", &public, b"Session: 7").unwrap();
    let e = Envelope { encapsulated_key, ciphertext, tag, associated_data: b"assoc".to_vec() };
    assert_eq!(server.decrypt(&e).unwrap(), b"secret".to_vec());
    let swapped = Envelope {
        encapsulated_key: e.encapsulated_key.clone(),
        ciphertext: e.ciphertext.clone(),
        tag: e.tag.clone(),
        associated_data: b"Session: 7".to_vec(),
    };
    assert_eq!(server.decrypt(&swapped), Err(shared::CryptoError::DecryptionFailed));
}

#[test]
fn two_sessions_are_isolated() {
    let (private_a, public_a) = Hpke::generate_key_pair().unwrap();
    let (private_b, public_b) = Hpke::generate_key_pair().unwrap();
    assert_ne!(public_a.as_bytes(), public_b.as_bytes());
    let mut a = ServerSession::new(private_a, public_a, information_for(1));
    let mut b = ServerSession::new(private_b, public_b, information_for(2));
    // interleave: a answers a request, then b runs to the end, then a does
    assert_eq!(reply(a.on_frame(b"information request".to_vec())), b"Session: 1".to_vec());
    let (pb, ib) = exchange(&mut b, &mut LineCodec::new(), &mut Codec::new(), b"to b", b"ad b");
    let (pa, ia) = exchange(&mut a, &mut LineCodec::new(), &mut Codec::new(), b"to a", b"ad a");
    assert_eq!(pa, b"to a".to_vec());
    assert_eq!(pb, b"to b".to_vec());
    assert_eq!(ia, b"Session: 1".to_vec());
    assert_eq!(ib, b"Session: 2".to_vec());
}

#[test]
fn envelope_for_another_session_fails_to_decrypt() {
    let (private_a, public_a) = Hpke::generate_key_pair().unwrap();
    let (private_b, public_b) = Hpke::generate_key_pair().unwrap();
    let a = ServerSession::new(private_a, public_a, information_for(1));
    let (encapsulated_key, ciphertext, tag) =
        Hpke::encrypt(b"m", b"d", &public_b.as_bytes(), &information_for(1)).unwrap();
    let _ = private_b;
    let e = Envelope { encapsulated_key, ciphertext, tag, associated_data: b"d".to_vec() };
    assert_eq!(a.decrypt(&e), Err(shared::CryptoError::DecryptionFailed));
}
