//! What holds of the dialog as a whole.

use super::address::{address_fault, AddressFault};
use super::bytes::{
    find, lemma_ascii_text, lemma_find, lemma_find_is, upper_all, CR, GREATER, HYPHEN, LF, SPACE,
};
use super::command::{
    ends_with_crlf, line_argument, line_body, line_verb, parse_line, parse_mail, reverse_path,
    ClientCommandView, ParseFault,
};
use super::mail::MailView;
use super::response::{hello_lines, reply_250, wire, ServerCommandView};
use super::session::{
    answer, greeting_reply, idle, no_transaction, silence, step, Event, OutcomeView,
    SessionState, DialogView,
};
use vstd::prelude::*;
use vstd::string::*;

verus! {

/// The session after a sequence of events, and what each event gave.
pub open spec fn run(s: DialogView, events: Seq<Event>) -> (DialogView, Seq<OutcomeView>)
    decreases events.len(),
{
    if events.len() == 0 {
        (s, Seq::empty())
    } else {
        let first = step(s, events[0]);
        let rest = run(first.0, events.drop_first());
        (rest.0, seq![first.1] + rest.1)
    }
}

/// A session holds a message exactly while a transaction is open.
pub open spec fn consistent(s: DialogView) -> bool {
    s.mail is Some <==> (s.state == SessionState::BuildingTransaction || s.state
        == SessionState::AwaitingData || s.state == SessionState::ReceivingData)
}

/// No event takes a session out of the consistent states, and a new session
/// is in one.
pub proof fn lemma_step_consistent(s: DialogView, event: Event)
    requires
        consistent(s),
    ensures
        consistent(step(s, event).0),
        consistent(DialogView { state: SessionState::AwaitingEhlo, mail: None }),
{
}

/// Each command, and each line that is no command, gets exactly one reply
/// while the session is open; a failure of the transport gets none. Only
/// `QUIT` closes the session, and a closed session says nothing more.
pub proof fn lemma_one_reply(s: DialogView, event: Event)
    ensures
        s.state != SessionState::Closed && !(event is ReadFailed) ==> step(s, event).1.reply is Some,
        event is ReadFailed ==> step(s, event) == (s, silence()),
        s.state == SessionState::Closed ==> step(s, event) == (s, silence()),
        step(s, event).0.state == SessionState::Closed <==> s.state == SessionState::Closed || event
            == Event::Command(ClientCommandView::Quit),
{
}

/// Over a run of commands in which only the last may be `QUIT`, the server
/// sends one reply for each.
pub proof fn lemma_one_reply_each(s: DialogView, events: Seq<Event>)
    requires
        s.state != SessionState::Closed,
        forall|i: int| 0 <= i < events.len() ==> !(#[trigger] events[i] is ReadFailed),
        forall|i: int|
            0 <= i < events.len() - 1 ==> #[trigger] events[i] != Event::Command(
                ClientCommandView::Quit,
            ),
    ensures
        run(s, events).1.len() == events.len(),
        forall|i: int| 0 <= i < events.len() ==> (#[trigger] run(s, events).1[i]).reply is Some,
    decreases events.len(),
{
    if events.len() > 0 {
        let first = step(s, events[0]);
        let rest = events.drop_first();
        lemma_one_reply(s, events[0]);
        if rest.len() > 0 {
            assert forall|i: int| 0 <= i < rest.len() implies !(#[trigger] rest[i] is ReadFailed) by {
                assert(rest[i] == events[i + 1]);
            }
            assert forall|i: int| 0 <= i < rest.len() - 1 implies #[trigger] rest[i]
                != Event::Command(ClientCommandView::Quit) by {
                assert(rest[i] == events[i + 1]);
            }
            lemma_one_reply_each(first.0, rest);
        } else {
            reveal_with_fuel(run, 2);
        }
        let outcomes = run(s, events).1;
        assert forall|i: int| 0 <= i < events.len() implies (#[trigger] outcomes[i]).reply is Some by {
            if i > 0 {
                assert(outcomes[i] == run(first.0, rest).1[i - 1]);
            }
        }
    }
}

/// Once the session is closed, no event gets a reply or yields a message.
pub proof fn lemma_closed_is_silent(s: DialogView, events: Seq<Event>)
    requires
        s.state == SessionState::Closed,
    ensures
        run(s, events).0 == s,
        run(s, events).1.len() == events.len(),
        forall|i: int| 0 <= i < events.len() ==> #[trigger] run(s, events).1[i] == silence(),
    decreases events.len(),
{
    if events.len() > 0 {
        let rest = events.drop_first();
        lemma_closed_is_silent(s, rest);
        let outcomes = run(s, events).1;
        assert forall|i: int| 0 <= i < events.len() implies #[trigger] outcomes[i] == silence() by {
            if i > 0 {
                assert(outcomes[i] == run(s, rest).1[i - 1]);
            }
        }
    }
}

/// The commands that name the recipients of a transaction, in order.
pub open spec fn recipient_commands(recipients: Seq<Seq<u8>>) -> Seq<Event> {
    Seq::new(recipients.len(), |i: int| Event::Command(ClientCommandView::Recipient(recipients[i])))
}

/// Inside a transaction, a run of `RCPT` commands adds each address to the
/// message in the order given, and each is acknowledged.
pub proof fn lemma_recipients_in_order(s: DialogView, recipients: Seq<Seq<u8>>)
    requires
        s.state != SessionState::Closed,
        s.mail is Some,
    ensures
        run(s, recipient_commands(recipients)).0 == (DialogView {
            state: s.state,
            mail: Some(
                MailView { receipients: s.mail->0.receipients + recipients, ..s.mail->0 },
            ),
        }),
        run(s, recipient_commands(recipients)).1.len() == recipients.len(),
        forall|i: int|
            0 <= i < recipients.len() ==> #[trigger] run(s, recipient_commands(recipients)).1[i]
                == answer(ServerCommandView::RecipientOk),
    decreases recipients.len(),
{
    let events = recipient_commands(recipients);
    if recipients.len() == 0 {
        assert(s.mail->0.receipients + recipients =~= s.mail->0.receipients);
    } else {
        let first = step(s, events[0]);
        let rest = recipients.drop_first();
        assert(events.drop_first() =~= recipient_commands(rest));
        lemma_recipients_in_order(first.0, rest);
        assert(first.0.mail->0.receipients + rest =~= s.mail->0.receipients + recipients);
        let outcomes = run(s, events).1;
        assert forall|i: int| 0 <= i < recipients.len() implies #[trigger] outcomes[i] == answer(
            ServerCommandView::RecipientOk,
        ) by {
            if i > 0 {
                assert(outcomes[i] == run(first.0, recipient_commands(rest)).1[i - 1]);
            }
        }
    }
}

/// The events of one whole transaction: `MAIL`, each `RCPT`, `DATA`, and the
/// payload.
pub open spec fn transaction(from: Seq<u8>, recipients: Seq<Seq<u8>>, content: Seq<u8>) -> Seq<
    Event,
> {
    seq![Event::Command(ClientCommandView::Mail(from))] + recipient_commands(recipients) + seq![
        Event::Command(ClientCommandView::Data),
        Event::Command(ClientCommandView::MailInput(content)),
    ]
}

/// The session after `first` and then `second` is the session that `second`
/// leaves of what `first` left, and the outcomes follow one another.
pub proof fn lemma_run_concat(s: DialogView, first: Seq<Event>, second: Seq<Event>)
    ensures
        run(s, first + second).0 == run(run(s, first).0, second).0,
        run(s, first + second).1 == run(s, first).1 + run(run(s, first).0, second).1,
    decreases first.len(),
{
    if first.len() == 0 {
        assert(first + second =~= second);
        assert(run(s, first).1 + run(s, second).1 =~= run(s, second).1);
    } else {
        let head = step(s, first[0]);
        assert((first + second).drop_first() =~= first.drop_first() + second);
        lemma_run_concat(head.0, first.drop_first(), second);
        assert(seq![head.1] + (run(head.0, first.drop_first()).1 + run(
            run(s, first).0,
            second,
        ).1) =~= run(s, first).1 + run(run(s, first).0, second).1);
    }
}

/// A transaction that starts where none is open ends with one message: its
/// sender is the one that `MAIL` named, its recipients are those that `RCPT`
/// named, in that order, and its content is the payload. The session is then
/// ready for the next transaction.
pub proof fn lemma_transaction_emits(
    s: DialogView,
    from: Seq<u8>,
    recipients: Seq<Seq<u8>>,
    content: Seq<u8>,
)
    requires
        s.state != SessionState::Closed,
        s.mail is None,
    ensures
        run(s, transaction(from, recipients, content)).0 == idle(),
        run(s, transaction(from, recipients, content)).1.len() == recipients.len() + 3,
        run(s, transaction(from, recipients, content)).1.last() == (OutcomeView {
            reply: Some(ServerCommandView::MailOk),
            mail: Some(MailView { from, receipients: recipients, content }),
        }),
        forall|i: int|
            0 <= i < recipients.len() + 2 ==> (#[trigger] run(
                s,
                transaction(from, recipients, content),
            ).1[i]).mail is None,
{
    let open = seq![Event::Command(ClientCommandView::Mail(from))];
    let close = seq![
        Event::Command(ClientCommandView::Data),
        Event::Command(ClientCommandView::MailInput(content)),
    ];
    reveal_with_fuel(run, 3);
    let s1 = run(s, open).0;
    assert(open.drop_first() =~= Seq::<Event>::empty());
    assert(run(s, open) == (step(s, open[0]).0, seq![step(s, open[0]).1] + Seq::<
        OutcomeView,
    >::empty()));
    lemma_recipients_in_order(s1, recipients);
    let s2 = run(s1, recipient_commands(recipients)).0;
    assert(Seq::<Seq<u8>>::empty() + recipients =~= recipients);
    let s3 = step(s2, close[0]).0;
    assert(close.drop_first().drop_first() =~= Seq::<Event>::empty());
    assert(close.drop_first()[0] == close[1]);
    let closing = run(s2, close);
    assert(closing.1 =~= seq![step(s2, close[0]).1, step(s3, close[1]).1]);
    lemma_run_concat(s, open, recipient_commands(recipients));
    lemma_run_concat(s, open + recipient_commands(recipients), close);
    let all = run(s, transaction(from, recipients, content)).1;
    let envelope = run(s, open + recipient_commands(recipients)).1;
    assert(all == envelope + closing.1);
    assert(envelope == run(s, open).1 + run(s1, recipient_commands(recipients)).1);
    assert forall|i: int| 0 <= i < recipients.len() + 2 implies (#[trigger] all[i]).mail is None by {
        if i == 0 {
        } else if i <= recipients.len() {
            assert(all[i] == run(s1, recipient_commands(recipients)).1[i - 1]);
        } else {
            assert(all[i] == closing.1[0]);
        }
    }
}

/// An event that leaves an open transaction open: anything but a greeting,
/// `RSET`, `QUIT` and a payload.
pub open spec fn keeps_transaction(event: Event) -> bool {
    !(event matches Event::Command(c) && (c is Hello || c is Reset || c is Quit || c is MailInput))
}

/// The addresses that the `RCPT` commands among `events` name, in order.
pub open spec fn named_recipients(events: Seq<Event>) -> Seq<Seq<u8>>
    decreases events.len(),
{
    if events.len() == 0 {
        Seq::empty()
    } else {
        let rest = named_recipients(events.drop_first());
        match events[0] {
            Event::Command(ClientCommandView::Recipient(to)) => seq![to] + rest,
            _ => rest,
        }
    }
}

/// While a transaction is open, whatever comes in that does not end it
/// leaves its sender as it is: a further `MAIL` is refused and replaces
/// nothing. Each `RCPT` adds its address, in order, and no message is handed
/// on before the payload.
pub proof fn lemma_transaction_keeps_sender(s: DialogView, events: Seq<Event>)
    requires
        s.state != SessionState::Closed,
        s.mail is Some,
        forall|i: int| 0 <= i < events.len() ==> keeps_transaction(#[trigger] events[i]),
    ensures
        run(s, events).0.state != SessionState::Closed,
        run(s, events).0.mail == Some(
            MailView {
                receipients: s.mail->0.receipients + named_recipients(events),
                ..s.mail->0
            },
        ),
        run(s, events).1.len() == events.len(),
        forall|i: int| 0 <= i < events.len() ==> (#[trigger] run(s, events).1[i]).mail is None,
    decreases events.len(),
{
    if events.len() == 0 {
        assert(s.mail->0.receipients + named_recipients(events) =~= s.mail->0.receipients);
    } else {
        let first = step(s, events[0]);
        let rest = events.drop_first();
        assert(keeps_transaction(events[0]));
        assert forall|i: int| 0 <= i < rest.len() implies keeps_transaction(#[trigger] rest[i]) by {
            assert(rest[i] == events[i + 1]);
        }
        lemma_transaction_keeps_sender(first.0, rest);
        assert(first.0.mail->0.receipients + named_recipients(rest) =~= s.mail->0.receipients
            + named_recipients(events));
        let outcomes = run(s, events).1;
        assert forall|i: int| 0 <= i < events.len() implies (#[trigger] outcomes[i]).mail is None by {
            if i > 0 {
                assert(outcomes[i] == run(first.0, rest).1[i - 1]);
            }
        }
    }
}

/// The message that a transaction hands on: its sender is the one of the
/// `MAIL` that opened the transaction, whatever came in between that `MAIL`
/// and the payload without ending the transaction; its recipients are those
/// that `RCPT` named in between, in order; its content is the payload.
pub proof fn lemma_message_of_transaction(
    s: DialogView,
    from: Seq<u8>,
    between: Seq<Event>,
    content: Seq<u8>,
)
    requires
        s.state != SessionState::Closed,
        s.mail is None,
        forall|i: int| 0 <= i < between.len() ==> keeps_transaction(#[trigger] between[i]),
    ensures
        ({
            let opened = step(s, Event::Command(ClientCommandView::Mail(from)));
            let before = run(opened.0, between);
            let closed = step(before.0, Event::Command(ClientCommandView::MailInput(content)));
            &&& opened.1 == answer(ServerCommandView::SenderOk)
            &&& closed.0 == idle()
            &&& closed.1 == (OutcomeView {
                reply: Some(ServerCommandView::MailOk),
                mail: Some(
                    MailView { from, receipients: named_recipients(between), content },
                ),
            })
        }),
{
    let opened = step(s, Event::Command(ClientCommandView::Mail(from)));
    lemma_transaction_keeps_sender(opened.0, between);
    assert(Seq::<Seq<u8>>::empty() + named_recipients(between) =~= named_recipients(between));
}

/// An event that is `MAIL` or `RCPT`.
pub open spec fn is_envelope(event: Event) -> bool {
    event matches Event::Command(c) && (c is Mail || c is Recipient)
}

/// After any run of `MAIL` and `RCPT` commands, `RSET` leaves the session
/// with no transaction open, and the next `RCPT` is refused with 503.
pub proof fn lemma_reset(s: DialogView, events: Seq<Event>, to: Seq<u8>)
    requires
        s.state != SessionState::Closed,
        forall|i: int| 0 <= i < events.len() ==> is_envelope(#[trigger] events[i]),
    ensures
        run(s, events).0.state != SessionState::Closed,
        step(run(s, events).0, Event::Command(ClientCommandView::Reset)) == (
            idle(),
            answer(ServerCommandView::ResetOk),
        ),
        step(idle(), Event::Command(ClientCommandView::Recipient(to))) == (
            idle(),
            answer(no_transaction()),
        ),
        "503 ".spec_bytes().is_prefix_of(wire(no_transaction())),
    decreases events.len(),
{
    if events.len() > 0 {
        let rest = events.drop_first();
        assert(is_envelope(events[0]));
        assert forall|i: int| 0 <= i < rest.len() implies is_envelope(#[trigger] rest[i]) by {
            assert(rest[i] == events[i + 1]);
        }
        lemma_reset(step(s, events[0]).0, rest, to);
    }
    reveal_strlit("503 ");
    reveal_strlit("503 Bad sequence of command. ");
    lemma_ascii_text("503 ");
    lemma_ascii_text("503 Bad sequence of command. ");
    let head = "503 Bad sequence of command. ".spec_bytes();
    assert("503 ".spec_bytes() =~= head.subrange(0, 4));
    assert("503 ".spec_bytes() =~= wire(no_transaction()).subrange(0, 4));
}

/// A greeting is answered in any open session, as often as it comes: each
/// time with the reply in two lines that names the client's domain and the
/// `8BITMIME` extension, and with no transaction open afterwards.
pub proof fn lemma_greeting_repeats(s: DialogView, domain: Seq<u8>)
    requires
        s.state != SessionState::Closed,
    ensures
        step(s, Event::Command(ClientCommandView::Hello(domain))) == (
            idle(),
            answer(greeting_reply(domain)),
        ),
        idle().state != SessionState::Closed,
        wire(greeting_reply(domain)) == "250-".spec_bytes() + domain
            + " delayed greetings !\r\n250 8BITMIME\r\n".spec_bytes(),
{
    let greet = "delayed greetings !".spec_bytes();
    let extension = "8BITMIME".spec_bytes();
    let lines = hello_lines(domain, Some(greet), seq![extension]);
    assert(lines =~= seq![domain + " ".spec_bytes() + greet, extension]);
    assert(lines.drop_first() =~= seq![extension]);
    reveal_with_fuel(reply_250, 2);
    reveal_strlit("250-");
    reveal_strlit("250 ");
    reveal_strlit(" ");
    reveal_strlit("\r\n");
    reveal_strlit("delayed greetings !");
    reveal_strlit("8BITMIME");
    reveal_strlit(" delayed greetings !\r\n250 8BITMIME\r\n");
    lemma_ascii_text("250-");
    lemma_ascii_text("250 ");
    lemma_ascii_text(" ");
    lemma_ascii_text("\r\n");
    lemma_ascii_text("delayed greetings !");
    lemma_ascii_text("8BITMIME");
    lemma_ascii_text(" delayed greetings !\r\n250 8BITMIME\r\n");
    assert(wire(greeting_reply(domain)) =~= "250-".spec_bytes() + domain
        + " delayed greetings !\r\n250 8BITMIME\r\n".spec_bytes());
}

/// A reply of code 250 in one line or more ends with CR LF.
proof fn lemma_reply_250_ends(lines: Seq<Seq<u8>>)
    requires
        lines.len() > 0,
    ensures
        ends_with_crlf(reply_250(lines)),
    decreases lines.len(),
{
    reveal_strlit("\r\n");
    lemma_ascii_text("\r\n");
    if lines.len() > 1 {
        lemma_reply_250_ends(lines.drop_first());
    }
}

/// Every reply ends with CR LF on the wire.
pub proof fn lemma_reply_ends_with_crlf(reply: ServerCommandView)
    ensures
        ends_with_crlf(wire(reply)),
{
    reveal_strlit("\r\n");
    lemma_ascii_text("\r\n");
    match reply {
        ServerCommandView::OpeningMessage(_) => {
            reveal_strlit(" Service ready\r\n");
            lemma_ascii_text(" Service ready\r\n");
        },
        ServerCommandView::HelloOk { domain, greet, extensions } => {
            lemma_reply_250_ends(hello_lines(domain, greet, extensions));
        },
        ServerCommandView::SenderOk => {
            reveal_strlit("250 Sender Ok\r\n");
            lemma_ascii_text("250 Sender Ok\r\n");
        },
        ServerCommandView::RecipientOk => {
            reveal_strlit("250 Recipient Ok\r\n");
            lemma_ascii_text("250 Recipient Ok\r\n");
        },
        ServerCommandView::NoopOk => {
            reveal_strlit("250 OK\r\n");
            lemma_ascii_text("250 OK\r\n");
        },
        ServerCommandView::ResetOk => {
            reveal_strlit("250 OK\r\n");
            lemma_ascii_text("250 OK\r\n");
        },
        ServerCommandView::StartMailInput => {
            reveal_strlit("354  Start mail input; end with <CRLF>.<CRLF>\r\n");
            lemma_ascii_text("354  Start mail input; end with <CRLF>.<CRLF>\r\n");
        },
        ServerCommandView::MailOk => {
            reveal_strlit("250 Mail Ok\r\n");
            lemma_ascii_text("250 Mail Ok\r\n");
        },
        ServerCommandView::ClosingConnection => {
            reveal_strlit("221 Closing connection\r\n");
            lemma_ascii_text("221 Closing connection\r\n");
        },
        ServerCommandView::SyntaxError => {
            reveal_strlit("501 Syntax error\r\n");
            lemma_ascii_text("501 Syntax error\r\n");
        },
        ServerCommandView::CommandUnrecognized => {
            reveal_strlit("500 Command unrecognized\r\n");
            lemma_ascii_text("500 Command unrecognized\r\n");
        },
        ServerCommandView::CommandNotImplemented => {
            reveal_strlit("502 Not implemented\r\n");
            lemma_ascii_text("502 Not implemented\r\n");
        },
        ServerCommandView::BadSequenceOfCommand(_) => {},
    }
}

/// The code of a reply: three digits.
pub open spec fn reply_code(reply: ServerCommandView) -> Seq<u8> {
    match reply {
        ServerCommandView::OpeningMessage(_) => "220".spec_bytes(),
        ServerCommandView::HelloOk { .. } => "250".spec_bytes(),
        ServerCommandView::SenderOk => "250".spec_bytes(),
        ServerCommandView::RecipientOk => "250".spec_bytes(),
        ServerCommandView::NoopOk => "250".spec_bytes(),
        ServerCommandView::ResetOk => "250".spec_bytes(),
        ServerCommandView::StartMailInput => "354".spec_bytes(),
        ServerCommandView::MailOk => "250".spec_bytes(),
        ServerCommandView::ClosingConnection => "221".spec_bytes(),
        ServerCommandView::SyntaxError => "501".spec_bytes(),
        ServerCommandView::CommandUnrecognized => "500".spec_bytes(),
        ServerCommandView::CommandNotImplemented => "502".spec_bytes(),
        ServerCommandView::BadSequenceOfCommand(_) => "503".spec_bytes(),
    }
}

/// The text of each line of a reply, without code and line end.
pub open spec fn reply_texts(reply: ServerCommandView) -> Seq<Seq<u8>> {
    match reply {
        ServerCommandView::OpeningMessage(domain) => seq![domain + " Service ready".spec_bytes()],
        ServerCommandView::HelloOk { domain, greet, extensions } => hello_lines(
            domain,
            greet,
            extensions,
        ),
        ServerCommandView::SenderOk => seq!["Sender Ok".spec_bytes()],
        ServerCommandView::RecipientOk => seq!["Recipient Ok".spec_bytes()],
        ServerCommandView::NoopOk => seq!["OK".spec_bytes()],
        ServerCommandView::ResetOk => seq!["OK".spec_bytes()],
        ServerCommandView::StartMailInput => seq![" Start mail input; end with <CRLF>.<CRLF>".spec_bytes()],
        ServerCommandView::MailOk => seq!["Mail Ok".spec_bytes()],
        ServerCommandView::ClosingConnection => seq!["Closing connection".spec_bytes()],
        ServerCommandView::SyntaxError => seq!["Syntax error".spec_bytes()],
        ServerCommandView::CommandUnrecognized => seq!["Command unrecognized".spec_bytes()],
        ServerCommandView::CommandNotImplemented => seq!["Not implemented".spec_bytes()],
        ServerCommandView::BadSequenceOfCommand(reason) => seq![
            "Bad sequence of command. ".spec_bytes() + reason,
        ],
    }
}

/// A reply as its lines: each is the code, a hyphen where another line
/// follows and a space where none does, the text of the line, and CR LF.
pub open spec fn reply_lines(code: Seq<u8>, texts: Seq<Seq<u8>>) -> Seq<u8>
    decreases texts.len(),
{
    if texts.len() == 0 {
        Seq::empty()
    } else if texts.len() == 1 {
        code + seq![SPACE] + texts[0] + seq![CR, LF]
    } else {
        code + seq![HYPHEN] + texts[0] + seq![CR, LF] + reply_lines(code, texts.drop_first())
    }
}

/// `b` is an ASCII digit.
pub open spec fn is_digit(b: u8) -> bool {
    48 <= b <= 57
}

/// A reply of code 250 is made of lines of that shape.
proof fn lemma_reply_250_lines(lines: Seq<Seq<u8>>)
    ensures
        reply_250(lines) == reply_lines("250".spec_bytes(), lines),
    decreases lines.len(),
{
    reveal_strlit("250");
    reveal_strlit("250 ");
    reveal_strlit("250-");
    reveal_strlit("\r\n");
    lemma_ascii_text("250");
    lemma_ascii_text("250 ");
    lemma_ascii_text("250-");
    lemma_ascii_text("\r\n");
    assert("250 ".spec_bytes() =~= "250".spec_bytes() + seq![SPACE]);
    assert("250-".spec_bytes() =~= "250".spec_bytes() + seq![HYPHEN]);
    assert("\r\n".spec_bytes() =~= seq![CR, LF]);
    if lines.len() > 1 {
        lemma_reply_250_lines(lines.drop_first());
    }
}

/// The shape of every reply: a code of three digits opens each of its lines,
/// a hyphen follows the code on each line but the last and a space on the
/// last, and CR LF closes each line. A reply has one line, but for the reply
/// to a greeting, which has one more for each extension.
pub proof fn lemma_reply_shape(reply: ServerCommandView)
    ensures
        wire(reply) == reply_lines(reply_code(reply), reply_texts(reply)),
        reply_code(reply).len() == 3,
        forall|i: int| 0 <= i < 3 ==> is_digit(#[trigger] reply_code(reply)[i]),
        reply matches ServerCommandView::HelloOk { extensions, .. } ==> reply_texts(reply).len()
            == 1 + extensions.len(),
        !(reply is HelloOk) ==> reply_texts(reply).len() == 1,
{
    reveal_strlit("220");
    reveal_strlit("221");
    reveal_strlit("250");
    reveal_strlit("354");
    reveal_strlit("500");
    reveal_strlit("501");
    reveal_strlit("502");
    reveal_strlit("503");
    lemma_ascii_text("220");
    lemma_ascii_text("221");
    lemma_ascii_text("250");
    lemma_ascii_text("354");
    lemma_ascii_text("500");
    lemma_ascii_text("501");
    lemma_ascii_text("502");
    lemma_ascii_text("503");
    match reply {
        ServerCommandView::OpeningMessage(domain) => {
            reveal_strlit("220 ");
            reveal_strlit(" Service ready\r\n");
            reveal_strlit(" Service ready");
            lemma_ascii_text("220 ");
            lemma_ascii_text(" Service ready\r\n");
            lemma_ascii_text(" Service ready");
            assert("220 ".spec_bytes() =~= "220".spec_bytes() + seq![SPACE]);
            assert(" Service ready\r\n".spec_bytes() =~= " Service ready".spec_bytes() + seq![
                CR,
                LF,
            ]);
            assert(wire(reply) =~= reply_lines(reply_code(reply), reply_texts(reply)));
        },
        ServerCommandView::HelloOk { domain, greet, extensions } => {
            lemma_reply_250_lines(hello_lines(domain, greet, extensions));
        },
        ServerCommandView::SenderOk => {
            reveal_strlit("250 Sender Ok\r\n");
            reveal_strlit("250");
            reveal_strlit("Sender Ok");
            lemma_ascii_text("250 Sender Ok\r\n");
            lemma_ascii_text("250");
            lemma_ascii_text("Sender Ok");
            assert("250 Sender Ok\r\n".spec_bytes() =~= "250".spec_bytes() + seq![SPACE] + "Sender Ok".spec_bytes()
                + seq![CR, LF]);
        },
        ServerCommandView::RecipientOk => {
            reveal_strlit("250 Recipient Ok\r\n");
            reveal_strlit("250");
            reveal_strlit("Recipient Ok");
            lemma_ascii_text("250 Recipient Ok\r\n");
            lemma_ascii_text("250");
            lemma_ascii_text("Recipient Ok");
            assert("250 Recipient Ok\r\n".spec_bytes() =~= "250".spec_bytes() + seq![SPACE] + "Recipient Ok".spec_bytes()
                + seq![CR, LF]);
        },
        ServerCommandView::NoopOk => {
            reveal_strlit("250 OK\r\n");
            reveal_strlit("250");
            reveal_strlit("OK");
            lemma_ascii_text("250 OK\r\n");
            lemma_ascii_text("250");
            lemma_ascii_text("OK");
            assert("250 OK\r\n".spec_bytes() =~= "250".spec_bytes() + seq![SPACE] + "OK".spec_bytes()
                + seq![CR, LF]);
        },
        ServerCommandView::ResetOk => {
            reveal_strlit("250 OK\r\n");
            reveal_strlit("250");
            reveal_strlit("OK");
            lemma_ascii_text("250 OK\r\n");
            lemma_ascii_text("250");
            lemma_ascii_text("OK");
            assert("250 OK\r\n".spec_bytes() =~= "250".spec_bytes() + seq![SPACE] + "OK".spec_bytes()
                + seq![CR, LF]);
        },
        ServerCommandView::StartMailInput => {
            reveal_strlit("354  Start mail input; end with <CRLF>.<CRLF>\r\n");
            reveal_strlit("354");
            reveal_strlit(" Start mail input; end with <CRLF>.<CRLF>");
            lemma_ascii_text("354  Start mail input; end with <CRLF>.<CRLF>\r\n");
            lemma_ascii_text("354");
            lemma_ascii_text(" Start mail input; end with <CRLF>.<CRLF>");
            assert("354  Start mail input; end with <CRLF>.<CRLF>\r\n".spec_bytes() =~= "354".spec_bytes() + seq![SPACE] + " Start mail input; end with <CRLF>.<CRLF>".spec_bytes()
                + seq![CR, LF]);
        },
        ServerCommandView::MailOk => {
            reveal_strlit("250 Mail Ok\r\n");
            reveal_strlit("250");
            reveal_strlit("Mail Ok");
            lemma_ascii_text("250 Mail Ok\r\n");
            lemma_ascii_text("250");
            lemma_ascii_text("Mail Ok");
            assert("250 Mail Ok\r\n".spec_bytes() =~= "250".spec_bytes() + seq![SPACE] + "Mail Ok".spec_bytes()
                + seq![CR, LF]);
        },
        ServerCommandView::ClosingConnection => {
            reveal_strlit("221 Closing connection\r\n");
            reveal_strlit("221");
            reveal_strlit("Closing connection");
            lemma_ascii_text("221 Closing connection\r\n");
            lemma_ascii_text("221");
            lemma_ascii_text("Closing connection");
            assert("221 Closing connection\r\n".spec_bytes() =~= "221".spec_bytes() + seq![SPACE] + "Closing connection".spec_bytes()
                + seq![CR, LF]);
        },
        ServerCommandView::SyntaxError => {
            reveal_strlit("501 Syntax error\r\n");
            reveal_strlit("501");
            reveal_strlit("Syntax error");
            lemma_ascii_text("501 Syntax error\r\n");
            lemma_ascii_text("501");
            lemma_ascii_text("Syntax error");
            assert("501 Syntax error\r\n".spec_bytes() =~= "501".spec_bytes() + seq![SPACE] + "Syntax error".spec_bytes()
                + seq![CR, LF]);
        },
        ServerCommandView::CommandUnrecognized => {
            reveal_strlit("500 Command unrecognized\r\n");
            reveal_strlit("500");
            reveal_strlit("Command unrecognized");
            lemma_ascii_text("500 Command unrecognized\r\n");
            lemma_ascii_text("500");
            lemma_ascii_text("Command unrecognized");
            assert("500 Command unrecognized\r\n".spec_bytes() =~= "500".spec_bytes() + seq![SPACE] + "Command unrecognized".spec_bytes()
                + seq![CR, LF]);
        },
        ServerCommandView::CommandNotImplemented => {
            reveal_strlit("502 Not implemented\r\n");
            reveal_strlit("502");
            reveal_strlit("Not implemented");
            lemma_ascii_text("502 Not implemented\r\n");
            lemma_ascii_text("502");
            lemma_ascii_text("Not implemented");
            assert("502 Not implemented\r\n".spec_bytes() =~= "502".spec_bytes() + seq![SPACE] + "Not implemented".spec_bytes()
                + seq![CR, LF]);
        },
        ServerCommandView::BadSequenceOfCommand(reason) => {
            reveal_strlit("503 Bad sequence of command. ");
            reveal_strlit("Bad sequence of command. ");
            reveal_strlit("\r\n");
            lemma_ascii_text("503 Bad sequence of command. ");
            lemma_ascii_text("Bad sequence of command. ");
            lemma_ascii_text("\r\n");
            assert("503 Bad sequence of command. ".spec_bytes() =~= "503".spec_bytes() + seq![SPACE]
                + "Bad sequence of command. ".spec_bytes());
            assert("\r\n".spec_bytes() =~= seq![CR, LF]);
            assert(wire(reply) =~= reply_lines(reply_code(reply), reply_texts(reply)));
        },
    }
}

/// A line that does not end with CR LF is no command, whatever it holds, and
/// the session answers it with 501.
pub proof fn lemma_bad_eol(line: Seq<u8>, s: DialogView)
    requires
        !ends_with_crlf(line),
        s.state != SessionState::Closed,
    ensures
        parse_line(line) == Err::<ClientCommandView, ParseFault>(ParseFault::BadEol),
        step(s, Event::Rejected(ParseFault::BadEol)) == (s, answer(ServerCommandView::SyntaxError)),
        "501 ".spec_bytes().is_prefix_of(wire(ServerCommandView::SyntaxError)),
{
    reveal_strlit("501 ");
    reveal_strlit("501 Syntax error\r\n");
    lemma_ascii_text("501 ");
    lemma_ascii_text("501 Syntax error\r\n");
    assert("501 ".spec_bytes() =~= wire(ServerCommandView::SyntaxError).subrange(0, 4));
}

/// `MAIL FROM:` followed by an address is accepted whatever follows the `>`
/// that closes the address: the parameters of the command play no part in
/// the address.
pub proof fn lemma_mail_ignores_parameters(address: Seq<u8>, parameters: Seq<u8>)
    requires
        address_fault(address) is None,
        find(address, GREATER) == address.len() - 1,
    ensures
        parse_line("MAIL FROM:".spec_bytes() + address + parameters + "\r\n".spec_bytes()) == Ok::<
            ClientCommandView,
            ParseFault,
        >(ClientCommandView::Mail(address)),
{
    reveal_strlit("MAIL FROM:");
    reveal_strlit("MAIL");
    reveal_strlit("FROM:");
    reveal_strlit("EHLO");
    reveal_strlit("HELO");
    reveal_strlit("\r\n");
    lemma_ascii_text("MAIL FROM:");
    lemma_ascii_text("MAIL");
    lemma_ascii_text("FROM:");
    lemma_ascii_text("EHLO");
    lemma_ascii_text("HELO");
    lemma_ascii_text("\r\n");
    let head = "MAIL FROM:".spec_bytes();
    let line = head + address + parameters + "\r\n".spec_bytes();
    let body = line_body(line);
    assert(body =~= head + address + parameters);
    lemma_find_is(body, SPACE, 4);
    let verb = line_verb(line);
    assert(verb =~= "MAIL".spec_bytes());
    assert(upper_all(verb) =~= "MAIL".spec_bytes());
    let argument = body.skip(5);
    assert(line_argument(line) == Some(argument));
    assert(argument =~= "FROM:".spec_bytes() + address + parameters);
    assert("FROM:".spec_bytes() =~= argument.subrange(0, 5));
    let path = argument.skip(5);
    assert(path =~= address + parameters);
    lemma_find(address, GREATER);
    lemma_find_is(path, GREATER, address.len() - 1);
    assert(reverse_path(argument) =~= address);
    assert(upper_all(verb)[0] != "EHLO".spec_bytes()[0]);
    assert(upper_all(verb)[0] != "HELO".spec_bytes()[0]);
}

/// `MAIL FROM:` followed by a path that holds no `>` is refused: the
/// address is what the client sent, and that does not close.
pub proof fn lemma_mail_needs_closing_bracket(path: Seq<u8>)
    requires
        !path.contains(GREATER),
    ensures
        parse_mail(Some("FROM:".spec_bytes() + path)) == Err::<ClientCommandView, ParseFault>(
            ParseFault::InvalidFrom(AddressFault::BadFrame),
        ),
{
    let argument = "FROM:".spec_bytes() + path;
    let keyword = "FROM:".spec_bytes();
    assert(keyword =~= argument.subrange(0, keyword.len() as int));
    assert(argument.skip(keyword.len() as int) =~= path);
    lemma_find(path, GREATER);
    assert(reverse_path(argument) == path);
    if path.len() > 0 {
        assert(path.contains(path.last()));
    }
}

} // verus!
