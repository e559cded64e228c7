use dtn_mail::smtp::{Mail, Session, SessionState};

fn run(client: &[u8]) -> (Vec<u8>, Vec<Mail>, Session) {
    let (mut session, mut server) = Session::new("ddelivery".to_owned());
    let progress = session.receive(client);
    server.extend_from_slice(&progress.output);
    (server, progress.mails, session)
}

fn text(bytes: &[u8]) -> String {
    String::from_utf8(bytes.to_vec()).unwrap()
}

const GREETING: &str = "220 ddelivery Service ready\r\n250-x delayed greetings !\r\n250 8BITMIME\r\n";
const NO_TRANSACTION: &str =
    "503 Bad sequence of command. No mail sequence. Begin with a MAIL command\r\n";

#[test]
fn session_opens_with_the_banner() {
    let (session, banner) = Session::new("ddelivery".to_owned());
    assert_eq!(banner, b"220 ddelivery Service ready\r\n");
    assert_eq!(session.state(), SessionState::AwaitingEhlo);
    assert!(!session.is_closed());
}

#[test]
fn minimal_transaction() {
    let (server, mails, session) =
        run(b"EHLO x\r\nMAIL FROM:<a@b>\r\nRCPT TO:<c@d>\r\nDATA\r\nhi\r\n.\r\nQUIT\r\n");
    assert_eq!(
        text(&server),
        "220 ddelivery Service ready\r\n250-x delayed greetings !\r\n250 8BITMIME\r\n250 Sender Ok\r\n250 Recipient Ok\r\n354  Start mail input; end with <CRLF>.<CRLF>\r\n250 Mail Ok\r\n221 Closing connection\r\n"
    );
    assert_eq!(mails.len(), 1);
    assert_eq!(mails[0].from.as_str(), "<a@b>");
    assert_eq!(mails[0].receipients.len(), 1);
    assert_eq!(mails[0].receipients[0].as_str(), "<c@d>");
    assert_eq!(mails[0].content, b"hi\r\n");
    assert!(session.is_closed());
}

#[test]
fn rcpt_without_mail() {
    let (server, mails, _) = run(b"EHLO x\r\nRCPT TO:<c@d>\r\n");
    assert_eq!(text(&server), format!("{GREETING}{NO_TRANSACTION}"));
    assert!(mails.is_empty());
}

#[test]
fn unknown_verb() {
    let (server, _, _) = run(b"EHLO x\r\nFOO\r\n");
    assert_eq!(text(&server), format!("{GREETING}500 Command unrecognized\r\n"));
}

#[test]
fn syntax_error_for_a_bad_address() {
    let (server, _, session) = run(b"EHLO x\r\nMAIL FROM:a@b\r\n");
    assert_eq!(text(&server), format!("{GREETING}501 Syntax error\r\n"));
    assert_eq!(session.state(), SessionState::AwaitingMail);
}

#[test]
fn dot_unstuffing() {
    let (_, mails, _) =
        run(b"EHLO x\r\nMAIL FROM:<a@b>\r\nRCPT TO:<c@d>\r\nDATA\r\n..line\r\n.\r\n");
    assert_eq!(mails.len(), 1);
    assert_eq!(mails[0].content, b".line\r\n");
}

#[test]
fn rset_mid_transaction() {
    let (server, mails, session) = run(b"EHLO x\r\nMAIL FROM:<a@b>\r\nRSET\r\nRCPT TO:<c@d>\r\n");
    assert_eq!(
        text(&server),
        format!("{GREETING}250 Sender Ok\r\n250 OK\r\n{NO_TRANSACTION}")
    );
    assert!(mails.is_empty());
    assert_eq!(session.state(), SessionState::AwaitingMail);
}

#[test]
fn mail_with_parameters_is_accepted() {
    let (server, mails, _) =
        run(b"MAIL FROM:<a@b> BODY=8BITMIME\r\nRCPT TO:<c@d>\r\nDATA\r\n.\r\n");
    assert!(text(&server).ends_with("250 Sender Ok\r\n250 Recipient Ok\r\n354  Start mail input; end with <CRLF>.<CRLF>\r\n250 Mail Ok\r\n"));
    assert_eq!(mails[0].from.as_str(), "<a@b>");
    assert!(mails[0].content.is_empty());
}

#[test]
fn one_reply_for_each_command() {
    let client: &[u8] = b"EHLO x\r\nNOOP\r\nHELP\r\nVRFY a\r\nEXPN b\r\nBOGUS\r\nMAIL FROM:<a@b>\r\nMAIL FROM:<a@b>\r\nRCPT TO:<c@d>\r\nRCPT TO:nobody\r\nDATA\r\none\r\ntwo\r\n.\r\nRSET\r\nQUIT\r\nNOOP\r\nNOOP\r\n";
    let (server, mails, session) = run(client);
    let expected = [
        "220 ddelivery Service ready",
        "250-x delayed greetings !",
        "250 8BITMIME",
        "250 OK",
        "502 Not implemented",
        "502 Not implemented",
        "502 Not implemented",
        "500 Command unrecognized",
        "250 Sender Ok",
        "503 Bad sequence of command. Mail sequence already started",
        "250 Recipient Ok",
        "501 Syntax error",
        "354  Start mail input; end with <CRLF>.<CRLF>",
        "250 Mail Ok",
        "250 OK",
        "221 Closing connection",
    ];
    let server = text(&server);
    let lines: Vec<&str> = server.split_terminator("\r\n").collect();
    assert_eq!(lines, expected);
    assert!(server.ends_with("\r\n"));
    assert_eq!(mails.len(), 1);
    assert_eq!(mails[0].content, b"one\r\ntwo\r\n");
    assert!(session.is_closed());
}

#[test]
fn nothing_is_read_after_quit() {
    let (mut session, _) = Session::new("ddelivery".to_owned());
    let first = session.receive(b"QUIT\r\nMAIL FROM:<a@b>\r\n");
    assert_eq!(first.output, b"221 Closing connection\r\n");
    let second = session.receive(b"NOOP\r\n");
    assert!(second.output.is_empty());
    assert!(second.mails.is_empty());
    assert!(session.is_closed());
}

#[test]
fn several_transactions_in_one_session() {
    let (_, mails, session) = run(
        b"EHLO x\r\nMAIL FROM:<a@b>\r\nRCPT TO:<c@d>\r\nDATA\r\nfirst\r\n.\r\nMAIL FROM:<e@f>\r\nRCPT TO:<g@h>\r\nRCPT TO:<i@j>\r\nDATA\r\nsecond\r\n.\r\n",
    );
    assert_eq!(mails.len(), 2);
    assert_eq!(mails[0].from.as_str(), "<a@b>");
    assert_eq!(mails[0].content, b"first\r\n");
    assert_eq!(mails[1].from.as_str(), "<e@f>");
    let to: Vec<&str> = mails[1].receipients.iter().map(|a| a.as_str()).collect();
    assert_eq!(to, ["<g@h>", "<i@j>"]);
    assert_eq!(mails[1].content, b"second\r\n");
    assert_eq!(session.state(), SessionState::AwaitingMail);
}

#[test]
fn replies_do_not_depend_on_how_the_bytes_arrive() {
    let client: &[u8] =
        b"EHLO x\r\nMAIL FROM:<a@b>\r\nRCPT TO:<c@d>\r\nDATA\r\n..a\r\nb\r\n.\r\nFOO\r\nQUIT\r\n";
    let (whole, whole_mails, _) = run(client);
    let (mut session, mut server) = Session::new("ddelivery".to_owned());
    let mut mails = Vec::new();
    for byte in client {
        let progress = session.receive(&[*byte]);
        server.extend_from_slice(&progress.output);
        mails.extend(progress.mails);
    }
    assert_eq!(server, whole);
    assert_eq!(mails.len(), whole_mails.len());
    assert_eq!(mails[0].content, whole_mails[0].content);
    assert_eq!(mails[0].content, b".a\r\nb\r\n");
    assert!(session.is_closed());
}

#[test]
fn incomplete_line_gets_no_reply() {
    let (mut session, _) = Session::new("ddelivery".to_owned());
    assert!(session.receive(b"EHLO x").output.is_empty());
    assert!(session.receive(b"\r").output.is_empty());
    assert_eq!(session.receive(b"\n").output, b"250-x delayed greetings !\r\n250 8BITMIME\r\n");
}

#[test]
fn failed_read_leaves_the_session_as_it_is() {
    let (mut session, _) = Session::new("ddelivery".to_owned());
    session.receive(b"MAIL FROM:<a@b>\r\nRCPT TO:<c");
    let outcome = session.read_failed(std::io::Error::new(std::io::ErrorKind::Other, "lost"));
    assert!(outcome.reply.is_none());
    assert!(outcome.mail.is_none());
    assert_eq!(session.state(), SessionState::BuildingTransaction);
    assert_eq!(session.receive(b"@d>\r\n").output, b"250 Recipient Ok\r\n");
}
