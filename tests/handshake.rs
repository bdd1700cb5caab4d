use redis_lite::handshake::{handshake_message, handshake_next, HandshakeStep};
use redis_lite::resp::handle_resp_request;

#[test]
fn handshake_messages() {
    let port = "6380".to_string();
    assert_eq!(
        handshake_message(HandshakeStep::Ping, &port).as_deref(),
        Some("*1\r\n$4\r\nPING\r\n")
    );
    assert_eq!(
        handshake_message(HandshakeStep::ListeningPort, &port).as_deref(),
        Some("*3\r\n$8\r\nREPLCONF\r\n$14\r\nlistening-port\r\n$4\r\n6380\r\n")
    );
    assert_eq!(
        handshake_message(HandshakeStep::Capa, &port).as_deref(),
        Some("*3\r\n$8\r\nREPLCONF\r\n$4\r\ncapa\r\n$6\r\npsync2\r\n")
    );
    assert_eq!(handshake_message(HandshakeStep::Done, &port), None);
    assert_eq!(handshake_message(HandshakeStep::Aborted, &port), None);
}

#[test]
fn handshake_succeeds_on_expected_replies() {
    let pong = handle_resp_request("+pong\r\n".to_string());
    let ok = handle_resp_request("+OK\r\n".to_string());
    let s = handshake_next(HandshakeStep::Ping, &pong);
    assert_eq!(s, HandshakeStep::ListeningPort);
    let s = handshake_next(s, &ok);
    assert_eq!(s, HandshakeStep::Capa);
    let s = handshake_next(s, &ok);
    assert_eq!(s, HandshakeStep::Done);
    assert_eq!(handshake_next(s, &pong), HandshakeStep::Done);
}

#[test]
fn handshake_aborts_on_other_replies() {
    let ok = handle_resp_request("+OK\r\n".to_string());
    let lower_ok = handle_resp_request("+ok\r\n".to_string());
    let empty = handle_resp_request(String::new());
    assert_eq!(handshake_next(HandshakeStep::Ping, &ok), HandshakeStep::Aborted);
    assert_eq!(handshake_next(HandshakeStep::Ping, &empty), HandshakeStep::Aborted);
    assert_eq!(handshake_next(HandshakeStep::ListeningPort, &lower_ok), HandshakeStep::Aborted);
    assert_eq!(handshake_next(HandshakeStep::Capa, &empty), HandshakeStep::Aborted);
    assert_eq!(handshake_next(HandshakeStep::Aborted, &ok), HandshakeStep::Aborted);
}
