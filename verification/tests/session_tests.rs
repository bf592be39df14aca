use ngs_chat_bots::session::{
    DRAIN_SECS, JOIN_WAIT_SECS, JoinStep, PRE_SEND_PAUSE_SECS, PROBE_WAIT_SECS, SendError,
    SendSession, SessionState, classify_probe_response, join_line, nick_line, pass_line,
    probe_lines,
};

#[test]
fn timing_constants_match_the_protocol() {
    assert_eq!(PROBE_WAIT_SECS, 10);
    assert_eq!(JOIN_WAIT_SECS, 5);
    assert_eq!(PRE_SEND_PAUSE_SECS, 1);
    assert_eq!(DRAIN_SECS, 2);
}

#[test]
fn outbound_lines_are_exact() {
    assert_eq!(pass_line(b"tok123"), b"PASS oauth:tok123\r\n".to_vec());
    assert_eq!(nick_line(b"alice"), b"NICK alice\r\n".to_vec());
    assert_eq!(join_line(b"chan"), b"JOIN #chan\r\n".to_vec());
}

#[test]
fn probe_lines_are_pass_then_nick() {
    let lines = probe_lines(b"alice", b"tok");
    assert_eq!(lines.len(), 2);
    assert_eq!(lines[0], b"PASS oauth:tok\r\n".to_vec());
    assert_eq!(lines[1], b"NICK alice\r\n".to_vec());
}

#[test]
fn probe_welcome_numeric_succeeds() {
    assert!(classify_probe_response(b":tmi.twitch.tv 001 alice :Welcome, GLHF!"));
}

#[test]
fn probe_welcome_word_succeeds() {
    assert!(classify_probe_response(b"... Welcome to the server ..."));
}

#[test]
fn probe_auth_failure_is_unavailable() {
    assert!(!classify_probe_response(b":tmi.twitch.tv NOTICE * :Login authentication failed"));
    assert!(!classify_probe_response(b":tmi.twitch.tv NOTICE * :Login unsuccessful"));
    assert!(!classify_probe_response(b""));
    assert!(!classify_probe_response(b"random noise"));
}

#[test]
fn opening_lines_are_pass_nick_join() {
    let lines = SendSession::opening_lines(b"alice", b"tok", b"chan");
    assert_eq!(lines.len(), 3);
    assert_eq!(lines[0], b"PASS oauth:tok\r\n".to_vec());
    assert_eq!(lines[1], b"NICK alice\r\n".to_vec());
    assert_eq!(lines[2], b"JOIN #chan\r\n".to_vec());
}

#[test]
fn join_confirmed_by_numeric_366() {
    let mut s = SendSession::begin();
    let step = s.on_server_line(b":tmi.twitch.tv 366 alice #chan :End of /NAMES list");
    assert!(matches!(step, JoinStep::Joined));
    assert!(matches!(s.state, SessionState::ReadyToSend));
}

#[test]
fn join_confirmed_by_names_end_phrase() {
    let mut s = SendSession::begin();
    let step = s.on_server_line(b"... End of /NAMES list ...");
    assert!(matches!(step, JoinStep::Joined));
}

#[test]
fn ping_during_join_wait_gets_matching_pong() {
    let mut s = SendSession::begin();
    let step = s.on_server_line(b"PING :tmi.twitch.tv");
    match step {
        JoinStep::Reply(pong) => assert_eq!(pong, b"PONG :tmi.twitch.tv".to_vec()),
        _ => panic!("expected a keep-alive reply"),
    }
    assert!(matches!(s.state, SessionState::AwaitJoin));
}

#[test]
fn server_without_join_confirmation_times_out_without_privmsg() {
    let mut s = SendSession::begin();
    let chatter: Vec<&[u8]> = vec![
        b":tmi.twitch.tv 001 alice :Welcome, GLHF!",
        b":tmi.twitch.tv 372 alice :motd",
        b"PING :tmi.twitch.tv",
        b":someone!user@host PRIVMSG #chan :hello",
    ];
    for line in chatter {
        let step = s.on_server_line(line);
        assert!(!matches!(step, JoinStep::Joined));
        assert!(matches!(s.state, SessionState::AwaitJoin));
    }
    let err = s.give_up();
    assert_eq!(err, SendError::JoinTimeout);
    assert!(matches!(s.state, SessionState::Failed));
}

#[test]
fn message_line_after_join_is_exact() {
    let mut s = SendSession::begin();
    let step = s.on_server_line(b":tmi.twitch.tv 366 alice #chan :End of /NAMES list");
    assert!(matches!(step, JoinStep::Joined));
    let line = s.message_line(b"chan", b"hello world");
    assert_eq!(line, b"PRIVMSG #chan :hello world\r\n".to_vec());
    assert!(matches!(s.state, SessionState::Sent));
}

#[test]
fn error_texts_are_stable() {
    assert_eq!(SendError::ConnectFailed.describe(), b"connection failed".to_vec());
    assert_eq!(SendError::JoinTimeout.describe(), b"could not join channel".to_vec());
    assert_eq!(SendError::WriteFailed.describe(), b"write failed".to_vec());
}
