use dtn_mail::smtp::{BadAddressError, ClientCommand, ClientCommandParseError};

fn parse(line: &[u8]) -> Result<ClientCommand, ClientCommandParseError> {
    ClientCommand::from_bytes(line)
}

#[test]
fn ehlo_carries_the_domain() {
    assert!(matches!(parse(b"EHLO x\r\n"), Ok(ClientCommand::Hello(d)) if d == "x"));
}

#[test]
fn helo_is_a_greeting_too() {
    assert!(matches!(parse(b"HELO relay.example\r\n"), Ok(ClientCommand::Hello(d)) if d == "relay.example"));
}

#[test]
fn verb_is_taken_in_any_case() {
    assert!(matches!(parse(b"ehlo x\r\n"), Ok(ClientCommand::Hello(d)) if d == "x"));
    assert!(matches!(parse(b"QuIt\r\n"), Ok(ClientCommand::Quit)));
    assert!(matches!(parse(b"data\r\n"), Ok(ClientCommand::Data)));
    assert!(matches!(parse(b"rset\r\n"), Ok(ClientCommand::Reset)));
}

#[test]
fn argument_is_not_trimmed() {
    assert!(matches!(parse(b"EHLO  x \r\n"), Ok(ClientCommand::Hello(d)) if d == " x "));
    assert!(matches!(parse(b"EHLO \r\n"), Ok(ClientCommand::Hello(d)) if d.is_empty()));
}

#[test]
fn mail_carries_the_reverse_path() {
    assert!(matches!(parse(b"MAIL FROM:<a@b>\r\n"), Ok(ClientCommand::Mail(a)) if a.as_str() == "<a@b>"));
}

#[test]
fn mail_ignores_what_follows_the_address() {
    assert!(matches!(
        parse(b"MAIL FROM:<a@b> SIZE=100 BODY=8BITMIME\r\n"),
        Ok(ClientCommand::Mail(a)) if a.as_str() == "<a@b>"
    ));
    assert!(matches!(parse(b"MAIL FROM:<a@b>>x\r\n"), Ok(ClientCommand::Mail(a)) if a.as_str() == "<a@b>"));
}

#[test]
fn mail_without_closing_bracket_is_refused() {
    for line in [&b"MAIL FROM:<a@b\r\n"[..], b"MAIL FROM:<a@b SIZE=1\r\n", b"MAIL FROM:\r\n", b"MAIL FROM:<\r\n"] {
        assert!(
            matches!(
                parse(line),
                Err(ClientCommandParseError::InvalidFrom(BadAddressError::BadFrame))
            ),
            "{line:?}"
        );
    }
}

#[test]
fn mail_keeps_spaces_inside_the_address() {
    assert!(matches!(parse(b"MAIL FROM:<a b@c>\r\n"), Ok(ClientCommand::Mail(a)) if a.as_str() == "<a b@c>"));
}

#[test]
fn recipient_carries_the_forward_path() {
    assert!(matches!(parse(b"RCPT TO:<c@d>\r\n"), Ok(ClientCommand::Recipient(a)) if a.as_str() == "<c@d>"));
}

#[test]
fn recipient_reads_its_first_word_only() {
    assert!(matches!(
        parse(b"RCPT TO:<c@d> NOTIFY=NEVER\r\n"),
        Ok(ClientCommand::Recipient(a)) if a.as_str() == "<c@d>"
    ));
}

#[test]
fn commands_without_argument() {
    assert!(matches!(parse(b"DATA\r\n"), Ok(ClientCommand::Data)));
    assert!(matches!(parse(b"QUIT\r\n"), Ok(ClientCommand::Quit)));
    assert!(matches!(parse(b"RSET\r\n"), Ok(ClientCommand::Reset)));
    assert!(matches!(parse(b"QUIT now\r\n"), Ok(ClientCommand::Quit)));
}

#[test]
fn verify_and_expand_carry_their_argument() {
    assert!(matches!(parse(b"VRFY someone\r\n"), Ok(ClientCommand::Verify(t)) if t == "someone"));
    assert!(matches!(parse(b"EXPN a list\r\n"), Ok(ClientCommand::Expand(t)) if t == "a list"));
}

#[test]
fn help_and_noop_take_an_optional_argument() {
    assert!(matches!(parse(b"HELP\r\n"), Ok(ClientCommand::Help(None))));
    assert!(matches!(parse(b"HELP me\r\n"), Ok(ClientCommand::Help(Some(t))) if t == "me"));
    assert!(matches!(parse(b"NOOP\r\n"), Ok(ClientCommand::Noop(None))));
    assert!(matches!(parse(b"NOOP x y\r\n"), Ok(ClientCommand::Noop(Some(t))) if t == "x y"));
}

#[test]
fn line_without_crlf_is_bad_eol() {
    for line in [&b"QUIT"[..], b"QUIT\n", b"QUIT\r", b"QUIT\n\r", b"", b"\n", b"\r", b"QUIT\r\n "] {
        assert!(matches!(parse(line), Err(ClientCommandParseError::BadEol)), "{line:?}");
    }
}

#[test]
fn line_without_verb_is_missing_command() {
    assert!(matches!(parse(b"\r\n"), Err(ClientCommandParseError::MissingCommand)));
    assert!(matches!(parse(b" EHLO x\r\n"), Err(ClientCommandParseError::MissingCommand)));
}

#[test]
fn greeting_and_paths_need_an_argument() {
    for line in [&b"EHLO\r\n"[..], b"HELO\r\n", b"MAIL\r\n", b"RCPT\r\n"] {
        assert!(matches!(parse(line), Err(ClientCommandParseError::MissingDomain)), "{line:?}");
    }
}

#[test]
fn wrong_keyword_is_a_syntax_error() {
    for line in [&b"MAIL TO:<a@b>\r\n"[..], b"MAIL from:<a@b>\r\n", b"MAIL \r\n", b"RCPT FROM:<a@b>\r\n", b"RCPT x TO:<a@b>\r\n", b"RCPT \r\n"] {
        assert!(matches!(parse(line), Err(ClientCommandParseError::SyntaxInvalid)), "{line:?}");
    }
}

#[test]
fn verb_outside_ascii_is_refused() {
    assert!(matches!(parse("é\r\n".as_bytes()), Err(ClientCommandParseError::InvalidCommandCharacter)));
    assert!(matches!(parse(b"\xffEHLO x\r\n"), Err(ClientCommandParseError::InvalidCommandCharacter)));
}

#[test]
fn argument_that_is_no_utf8_is_refused() {
    for line in [&b"EHLO \xff\r\n"[..], b"VRFY \xff\r\n", b"EXPN \xc3\r\n", b"HELP \xff\r\n", b"NOOP \xff\r\n"] {
        assert!(matches!(parse(line), Err(ClientCommandParseError::InvalidCharacter(_))), "{line:?}");
    }
}

#[test]
fn unknown_verb_is_named_in_upper_case() {
    assert!(matches!(parse(b"FOO\r\n"), Err(ClientCommandParseError::InvalidCommand(v)) if v == "FOO"));
    assert!(matches!(parse(b"starttls x\r\n"), Err(ClientCommandParseError::InvalidCommand(v)) if v == "STARTTLS"));
    assert!(matches!(parse(b"a{z\r\n"), Err(ClientCommandParseError::InvalidCommand(v)) if v == "A{Z"));
}

#[test]
fn verify_and_expand_need_a_parameter() {
    assert!(matches!(parse(b"VRFY\r\n"), Err(ClientCommandParseError::MissingParameter)));
    assert!(matches!(parse(b"EXPN\r\n"), Err(ClientCommandParseError::MissingParameter)));
}

#[test]
fn bad_reverse_path_is_invalid_from() {
    assert!(matches!(
        parse(b"MAIL FROM:a@b\r\n"),
        Err(ClientCommandParseError::InvalidFrom(BadAddressError::BadFrame))
    ));
    assert!(matches!(
        parse(b"MAIL FROM:<ab>\r\n"),
        Err(ClientCommandParseError::InvalidFrom(BadAddressError::AtMissing))
    ));
    assert!(matches!(
        parse(b"MAIL FROM:<\xff@b>\r\n"),
        Err(ClientCommandParseError::InvalidFrom(BadAddressError::InvalidUtf8String(_)))
    ));
}

#[test]
fn bad_forward_path_is_invalid_recipient() {
    assert!(matches!(
        parse(b"RCPT TO:c@d\r\n"),
        Err(ClientCommandParseError::InvalidRecipient(BadAddressError::BadFrame))
    ));
    assert!(matches!(
        parse(b"RCPT TO:<cd>\r\n"),
        Err(ClientCommandParseError::InvalidRecipient(BadAddressError::AtMissing))
    ));
    assert!(matches!(
        parse(b"RCPT TO:<c d@e>\r\n"),
        Err(ClientCommandParseError::InvalidRecipient(BadAddressError::BadFrame))
    ));
}
