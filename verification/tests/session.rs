//! Bringing a session up, sealing its messages, and cutting its stream into frames.

use sccm_rc::protocol::error::Error;
use sccm_rc::protocol::framing::{encode_data_frame, encode_handshake_token, MSG_TYPE_CONTROL, MSG_TYPE_DATA};
use sccm_rc::protocol::handshake::{
    call_outcome, completion_needed, confidentiality, mutual_auth, seal_frame, seal_outcome,
    split_sealed, step_outcome, unseal_outcome, wide_nul, HandshakeStep, SECQOP_WRAP_NO_ENCRYPT,
    SEC_E_OK, SEC_I_COMPLETE_AND_CONTINUE, SEC_I_COMPLETE_NEEDED, SEC_I_CONTINUE_NEEDED,
};
use sccm_rc::protocol::transport::{blob_length, encode_blob, Frame, FrameBuffer};
use sccm_rc::session::{
    connect_next, decode_control_utf16, disconnect_message, grant_of, is_sccm_control_keyword,
    ConnectEvent, ConnectState, ConnectTask, Grant, Inbound, SccmSession,
};

fn utf16(s: &str) -> Vec<u8> {
    s.encode_utf16().flat_map(|u| u.to_le_bytes()).collect()
}

fn control(s: &str) -> Frame {
    let text = utf16(s);
    let mut body = (text.len() as u16).to_le_bytes().to_vec();
    body.extend_from_slice(&text);
    Frame { msg_type: MSG_TYPE_CONTROL, body }
}

fn why<T>(r: Result<T, Error>) -> String {
    match r {
        Ok(_) => panic!("this should fail"),
        Err(e) => e.message(),
    }
}

#[test]
fn sessions_come_up_step_by_step() {
    let (state, action) =
        connect_next(ConnectState::Greeting, ConnectEvent::Received(Some(control("START_HANDSHAKE"))))
            .unwrap();
    assert_eq!(state, ConnectState::Negotiating);
    assert!(action.send.is_empty());
    assert!(matches!(action.then_do, ConnectTask::Step(t) if t.is_empty()));

    let step = HandshakeStep { output: vec![1, 2, 3], done: false };
    let (state, action) = connect_next(state, ConnectEvent::Stepped(step)).unwrap();
    assert_eq!(state, ConnectState::Token);
    assert_eq!(action.send, encode_handshake_token(&[1, 2, 3]));
    assert!(matches!(action.then_do, ConnectTask::Receive));

    let reply = Frame { msg_type: MSG_TYPE_DATA, body: vec![2, 0, 9, 8] };
    let (state, action) = connect_next(state, ConnectEvent::Received(Some(reply))).unwrap();
    assert_eq!(state, ConnectState::Negotiating);
    assert!(matches!(action.then_do, ConnectTask::Step(t) if t == [9, 8]));

    let step = HandshakeStep { output: vec![], done: true };
    let (state, action) = connect_next(state, ConnectEvent::Stepped(step)).unwrap();
    assert_eq!(state, ConnectState::SealedGrant);
    assert!(action.send.is_empty());
    assert!(matches!(action.then_do, ConnectTask::QuerySizes));

    let sealed = Frame { msg_type: MSG_TYPE_DATA, body: vec![7] };
    let (state, action) = connect_next(state, ConnectEvent::Received(Some(sealed))).unwrap();
    assert_eq!(state, ConnectState::PlainGrant);
    assert!(matches!(action.then_do, ConnectTask::Unseal(t) if t == [7]));

    let plain = utf16("SUCCESS_FULL_CONTROL");
    let (state, action) = connect_next(state, ConnectEvent::Unsealed(plain)).unwrap();
    assert_eq!(state, ConnectState::Up(Grant::FullControl));
    assert!(matches!(action.then_do, ConnectTask::Finish));
}

#[test]
fn refusals_end_the_connection() {
    let frame = |f: Frame| ConnectEvent::Received(Some(f));
    let closed = || ConnectEvent::Received(None);
    assert_eq!(why(connect_next(ConnectState::Greeting, closed())), "protocol: closed before greeting");
    assert_eq!(
        why(connect_next(ConnectState::Greeting, frame(control("HELLO")))),
        "protocol: unexpected greeting: HELLO"
    );
    assert_eq!(why(connect_next(ConnectState::Token, closed())), "protocol: closed mid-handshake");
    assert_eq!(
        why(connect_next(ConnectState::Token, frame(control("ERROR_DENIED")))),
        "protocol: server rejected handshake: ERROR_DENIED"
    );
    assert_eq!(
        why(connect_next(
            ConnectState::Token,
            frame(Frame { msg_type: MSG_TYPE_DATA, body: vec![9, 0, 1] })
        )),
        "protocol: malformed handshake token"
    );
    assert_eq!(why(connect_next(ConnectState::SealedGrant, closed())), "protocol: closed before grant");
    assert_eq!(
        why(connect_next(ConnectState::PlainGrant, ConnectEvent::Unsealed(utf16("ERROR_NO")))),
        "protocol: access not granted: ERROR_NO"
    );
}

#[test]
fn grants_are_read() {
    assert_eq!(grant_of(&utf16("SUCCESS_VIEW_ONLY\0")).unwrap(), Grant::ViewOnly);
    assert_eq!(grant_of(&utf16("SUCCESS_FULL_CONTROL")).unwrap(), Grant::FullControl);
    assert_eq!(why(grant_of(&[1, 2, 3])), "protocol: grant not a control string");
    assert_eq!(decode_control_utf16(&utf16("A B")), None);
    assert_eq!(decode_control_utf16(&utf16("AB\0\0")), Some("AB".to_string()));
    assert!(is_sccm_control_keyword("START_RDP") && is_sccm_control_keyword("STOP_HANDSHAKE"));
    assert!(!is_sccm_control_keyword("STOP_HANDSHAKE2") && !is_sccm_control_keyword("HELLO"));
}

#[test]
fn control_messages_are_told_from_rdp() {
    let mut s = SccmSession::established(Grant::ViewOnly);
    assert!(matches!(s.on_unsealed(utf16("SUCCESS_X")), Inbound::Control));
    assert!(matches!(s.on_unsealed(utf16("PRINTABLE")), Inbound::Rdp(v) if v == utf16("PRINTABLE")));
    assert_eq!(s.seal_stats(), (0, 2));
    assert_eq!(s.recvd_bytes(), 36);
    assert_eq!(s.grant(), Grant::ViewOnly);
    assert_eq!(s.send_sealed(&[5, 6]), encode_data_frame(&[5, 6]));
    assert_eq!(s.seal_stats(), (0, 2));
    assert_eq!(why(s.on_written(Err(Error::Io("gone".to_string())))), "io: gone");
    assert_eq!(s.seal_stats(), (0, 2));
    assert!(s.on_written(Ok(())).is_ok());
    assert_eq!(s.seal_stats(), (1, 2));
    assert_eq!(s.take_buffered(), None);
    s.rx_buf = vec![1];
    assert_eq!(s.take_buffered(), Some(vec![1]));
    assert_eq!(s.take_buffered(), None);
    assert!(SccmSession::carries_data(&Frame { msg_type: MSG_TYPE_DATA, body: vec![] }));
    assert!(!SccmSession::carries_data(&control("X")));
    assert_eq!(disconnect_message(), [3, 0, 0, 9, 2, 0xf0, 0x80, 0x21, 0x80]);
}

#[test]
fn only_kerberos_verifies_the_server() {
    let sec = |p: Option<&str>| SccmSession::security(true, p.map(|s| s.to_string()));
    assert_eq!(sec(Some("kerberos")), (true, true, Some("kerberos".to_string())));
    assert_eq!(sec(Some("NTLM")), (true, false, Some("NTLM".to_string())));
    assert_eq!(sec(None), (true, false, None));
}

#[test]
fn frames_do_not_depend_on_chunks() {
    let mut wire = encode_data_frame(b"hello");
    wire.extend_from_slice(&encode_data_frame(b""));
    let mut buf = FrameBuffer::new();
    let mut bodies = Vec::new();
    for b in &wire {
        buf.feed(&[*b]);
        while let Some(f) = buf.take_frame().unwrap() {
            assert_eq!(f.msg_type, MSG_TYPE_DATA);
            bodies.push(f.body);
        }
    }
    assert_eq!(bodies, [b"hello".to_vec(), vec![]]);
    assert!(buf.is_empty());
    assert!(buf.at_end().is_ok());
    buf.feed(&[1]);
    assert_eq!(why(buf.at_end()), "io: connection closed mid-frame");
}

#[test]
fn oversized_frames_are_refused() {
    let mut buf = FrameBuffer::new();
    buf.feed(&[1, 0, 0x80, 0]);
    assert_eq!(why(buf.take_frame()), "protocol: implausibly-large frame body: 8388609 bytes");
    assert_eq!(encode_blob(&[7]), [0, 0, 0, 1, 7]);
    assert_eq!(blob_length([0, 0x10, 0, 0]).unwrap(), 1_048_576);
    assert_eq!(why(blob_length([0, 0x10, 0, 1])), "protocol: implausibly-large blob length: 1048577 bytes");
}

#[test]
fn sealed_frames_round_trip() {
    let body = seal_frame(&[1, 2, 3], &[9]).unwrap();
    assert_eq!(body, [3, 0, 1, 2, 3, 1, 0, 9]);
    assert_eq!(split_sealed(&body).unwrap(), (vec![1, 2, 3], vec![9]));
    assert_eq!(
        why(seal_frame(&[0; 0x10000], &[])),
        "protocol: sealed frame exceeds u16 length prefix: data=65536 token=0"
    );
    assert_eq!(why(split_sealed(&[0, 0, 0])), "protocol: sealed frame too short");
    assert_eq!(why(split_sealed(&[9, 0, 0, 0])), "protocol: sealed frame: bad data_len");
    assert_eq!(why(split_sealed(&[0, 0, 9, 0])), "protocol: sealed frame: bad token_len");
}

#[test]
fn statuses_of_the_security_package() {
    let done = |status: i32| step_outcome(status, None, vec![1]).map(|s| s.done);
    assert!(done(SEC_E_OK).unwrap() && done(SEC_I_COMPLETE_NEEDED).unwrap());
    assert!(!done(SEC_I_CONTINUE_NEEDED).unwrap() && !done(SEC_I_COMPLETE_AND_CONTINUE).unwrap());
    assert_eq!(why(done(-1)), "sspi: InitializeSecurityContextW failed: 0xFFFFFFFF");
    assert_eq!(
        why(step_outcome(SEC_E_OK, Some(5), vec![])),
        "sspi: CompleteAuthToken failed: 0x00000005"
    );
    assert!(completion_needed(SEC_I_COMPLETE_NEEDED) && !completion_needed(SEC_E_OK));
    assert!(call_outcome("X", SEC_E_OK).is_ok());
    assert_eq!(why(call_outcome("X", 1)), "sspi: X failed: 0x00000001");
    assert!(confidentiality(0x10) && !confidentiality(0x02));
    assert!(mutual_auth(0x02) && !mutual_auth(0x10));
    assert_eq!(wide_nul("ab"), [97, 98, 0]);
}

#[test]
fn only_encrypted_messages_count() {
    assert_eq!(unseal_outcome(SEC_E_OK, 0, &[1]).unwrap(), [1]);
    assert_eq!(why(unseal_outcome(2, 0, &[1])), "sspi: DecryptMessage failed: 0x00000002");
    assert_eq!(
        why(unseal_outcome(SEC_E_OK, SECQOP_WRAP_NO_ENCRYPT, &[1])),
        "sspi: unsealed frame was not encrypted (QOP no-encrypt)"
    );
    assert_eq!(seal_outcome(SEC_E_OK, &[1], &[]).unwrap(), [1, 0, 1, 0, 0]);
    assert_eq!(why(seal_outcome(3, &[1], &[])), "sspi: EncryptMessage failed: 0x00000003");
}

#[test]
fn errors_say_what_they_are() {
    assert_eq!(Error::Io("x".to_string()).message(), "io: x");
    assert_eq!(Error::ArbitrationDenied.message(), "session arbitration denied by remote user");
    assert_eq!(
        Error::ArbitrationTimeout.message(),
        "session arbitration timed out (no response from remote user)"
    );
    assert!(Error::Refused.message().starts_with("connection refused"));
    assert!(Error::ExistingSession.message().starts_with("a remote-control session is already active"));
}

#[test]
fn sealed_messages_arrive_one_by_one() {
    let mut s = SccmSession::established(Grant::FullControl);
    let mut stream = s.send_sealed(&seal_frame(&[1, 2, 3], &[9, 9]).unwrap());
    assert!(s.on_written(Ok(())).is_ok());
    stream.extend(s.send_sealed(&seal_frame(&[], &[7]).unwrap()));
    assert!(s.on_written(Ok(())).is_ok());
    let mut rx = FrameBuffer::new();
    rx.feed(&stream[..5]);
    assert!(rx.take_frame().unwrap().is_none());
    rx.feed(&stream[5..]);
    for parts in [(vec![1, 2, 3], vec![9, 9]), (vec![], vec![7])] {
        let f = rx.take_frame().unwrap().unwrap();
        assert_eq!(f.msg_type, MSG_TYPE_DATA);
        assert_eq!(split_sealed(&f.body).unwrap(), parts);
    }
    assert!(rx.is_empty());
    assert_eq!(s.seal_stats(), (2, 0));
}

#[test]
fn blobs_announce_their_length() {
    let blob = encode_blob(&[5; 70_000]);
    assert_eq!(blob_length([blob[0], blob[1], blob[2], blob[3]]).unwrap(), 70_000);
    assert_eq!(blob.len(), 4 + 70_000);
}
