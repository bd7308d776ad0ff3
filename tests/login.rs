use mikrotik_exporter::login::{challenge_response, Login, LoginAction};
use mikrotik_exporter::sentence::{ReplyEvent, ReplyReader};
use mikrotik_exporter::Sentence;

#[test]
fn challenge_response_matches_md5_of_zero_password_challenge() {
    let r = challenge_response("secret", "0123456789abcdef0123456789ABCDEF");
    assert_eq!(r.as_deref(), Some("00ebbe7c3df6b3d902bfd1f355c6e63289"));
    assert_eq!(challenge_response("secret", "abc"), None);
    assert_eq!(challenge_response("secret", "zz"), None);
}

#[test]
fn plaintext_login_then_fallback() {
    let (mut login, first) = Login::start("admin", "pw");
    match first {
        LoginAction::Send(w) => assert_eq!(w, vec!["/login", "=name=admin", "=password=pw"]),
        _ => panic!("expected a command"),
    }
    match login.next(Err("trap".to_string())) {
        LoginAction::Send(w) => assert_eq!(w, vec!["/login"]),
        _ => panic!("expected the challenge request"),
    }
    let mut row = Sentence::new();
    row.insert("ret", "0123456789abcdef0123456789ABCDEF");
    match login.next(Ok(vec![row])) {
        LoginAction::Send(w) => {
            assert_eq!(w[1], "=name=admin");
            assert!(w[2].starts_with("=response=00"));
        }
        _ => panic!("expected the response"),
    }
    assert!(matches!(login.next(Ok(vec![])), LoginAction::Succeeded));
}

#[test]
fn plaintext_login_failure_message() {
    let (mut login, _) = Login::start("admin", "bad");
    let mut row = Sentence::new();
    row.insert("message", "cannot log in: invalid user name or password");
    match login.next(Ok(vec![row])) {
        LoginAction::Send(w) => assert_eq!(w, vec!["/login"]),
        _ => panic!("expected the challenge request"),
    }
    match login.next(Err("RouterOS trap: cannot log in".to_string())) {
        LoginAction::Failed(m) => assert!(m.contains("cannot log in")),
        _ => panic!("expected failure once both flows failed"),
    }
}

#[test]
fn reply_reader_rows_and_trap() {
    let mut reader = ReplyReader::new();
    for w in ["!re", "=name=ether1", "=running=true", "", "!re", "=name=ether2", ".tag=1"] {
        assert!(matches!(reader.feed(w), ReplyEvent::Pending));
    }
    match reader.feed("!done") {
        ReplyEvent::Done(rows) => {
            assert_eq!(rows.len(), 2);
            assert_eq!(rows[0].get("running").map(|s| s.as_str()), Some("true"));
            assert_eq!(rows[1].get("name").map(|s| s.as_str()), Some("ether2"));
        }
        _ => panic!("expected done"),
    }
    let mut trap = ReplyReader::new();
    assert!(matches!(trap.feed("!trap"), ReplyEvent::Pending));
    assert!(matches!(trap.feed("=message=no such command"), ReplyEvent::Pending));
    match trap.feed("!done") {
        ReplyEvent::Trap(m) => assert_eq!(m, "no such command"),
        _ => panic!("expected trap"),
    }
}

#[test]
fn challenge_flow_failures() {
    let (mut login, _) = Login::start("admin", "pw");
    assert!(matches!(login.next(Err("trap".to_string())), LoginAction::Send(_)));
    match login.next(Ok(vec![])) {
        LoginAction::Failed(m) => assert_eq!(m, "no login challenge received"),
        _ => panic!("expected failure"),
    }
    let (mut login, _) = Login::start("admin", "pw");
    assert!(matches!(login.next(Err("trap".to_string())), LoginAction::Send(_)));
    let mut row = Sentence::new();
    row.insert("ret", "xyz");
    match login.next(Ok(vec![row])) {
        LoginAction::Failed(m) => assert_eq!(m, "malformed login challenge"),
        _ => panic!("expected failure"),
    }
    let (mut login, _) = Login::start("admin", "pw");
    assert!(matches!(login.next(Err("trap".to_string())), LoginAction::Send(_)));
    match login.next(Err("closed".to_string())) {
        LoginAction::Failed(m) => assert_eq!(m, "closed"),
        _ => panic!("expected failure"),
    }
}
