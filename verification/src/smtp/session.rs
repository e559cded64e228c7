//! The dialog of one session: which reply each event gets, and when a
//! message is complete.

use super::command::{
    ClientCommand, ClientCommandParseError, ClientCommandView, ParseFault,
};
use super::mail::{Mail, MailView};
use super::response::{ServerCommand, ServerCommandView};
use vstd::prelude::*;
use vstd::string::*;

verus! {

/// `std::io::Error`, the error of a failed read. It is carried as it comes;
/// nothing is read from it.
#[verifier::external_type_specification]
#[verifier::external_body]
pub struct ExIoError(std::io::Error);

/// What reading the next command can fail with.
#[derive(Debug)]
pub enum SmtpError {
    /// The transport failed.
    Io(std::io::Error),
    /// The line is no command.
    Command(ClientCommandParseError),
}

impl From<std::io::Error> for SmtpError {
    fn from(e: std::io::Error) -> (r: Self) {
        SmtpError::Io(e)
    }
}

impl vstd::std_specs::convert::FromSpecImpl<std::io::Error> for SmtpError {
    open spec fn obeys_from_spec() -> bool {
        true
    }

    open spec fn from_spec(e: std::io::Error) -> Self {
        SmtpError::Io(e)
    }
}

impl From<ClientCommandParseError> for SmtpError {
    fn from(e: ClientCommandParseError) -> (r: Self) {
        SmtpError::Command(e)
    }
}

impl vstd::std_specs::convert::FromSpecImpl<ClientCommandParseError> for SmtpError {
    open spec fn obeys_from_spec() -> bool {
        true
    }

    open spec fn from_spec(e: ClientCommandParseError) -> Self {
        SmtpError::Command(e)
    }
}

/// Where a session stands in its dialog.
#[derive(Debug, Clone, Copy, PartialEq, Eq, Structural)]
pub enum SessionState {
    /// Nothing was received yet.
    AwaitingEhlo,
    /// No transaction is open.
    AwaitingMail,
    /// `MAIL` opened a transaction, which takes recipients.
    BuildingTransaction,
    /// The envelope is complete and `DATA` is due. The dialog does not enter
    /// this state: `DATA` is accepted in `BuildingTransaction`, with or
    /// without recipients.
    AwaitingData,
    /// `DATA` was accepted for the open transaction.
    ReceivingData,
    /// `QUIT` ended the session.
    Closed,
}

/// What a session receives: a command, a line that is no command, or a
/// failure of the transport.
pub enum Event {
    Command(ClientCommandView),
    Rejected(ParseFault),
    ReadFailed,
}

/// The event that one item of the command stream stands for.
pub open spec fn event_of(item: Result<ClientCommand, SmtpError>) -> Event {
    match item {
        Ok(command) => Event::Command(command@),
        Err(SmtpError::Command(e)) => Event::Rejected(e@),
        Err(SmtpError::Io(_)) => Event::ReadFailed,
    }
}

/// The dialog of a session as bytes: its state and the message in progress.
pub struct DialogView {
    pub state: SessionState,
    pub mail: Option<MailView>,
}

/// What the driver of a session does after an event: send `reply`, and hand
/// `mail` on.
#[derive(Debug)]
pub struct Outcome {
    pub reply: Option<ServerCommand>,
    pub mail: Option<Mail>,
}

/// An outcome as bytes.
pub struct OutcomeView {
    pub reply: Option<ServerCommandView>,
    pub mail: Option<MailView>,
}

impl View for Outcome {
    type V = OutcomeView;

    open spec fn view(&self) -> OutcomeView {
        OutcomeView {
            reply: match self.reply {
                Some(r) => Some(r@),
                None => None,
            },
            mail: match self.mail {
                Some(m) => Some(m@),
                None => None,
            },
        }
    }
}

/// Nothing to send, nothing to hand on.
pub open spec fn silence() -> OutcomeView {
    OutcomeView { reply: None, mail: None }
}

/// One reply to send.
pub open spec fn answer(reply: ServerCommandView) -> OutcomeView {
    OutcomeView { reply: Some(reply), mail: None }
}

/// The reply to a line that is no command: 500 where the verb is missing or
/// unknown, 501 for everything else.
pub open spec fn rejection(fault: ParseFault) -> ServerCommandView {
    match fault {
        ParseFault::MissingCommand => ServerCommandView::CommandUnrecognized,
        ParseFault::InvalidCommand(_) => ServerCommandView::CommandUnrecognized,
        _ => ServerCommandView::SyntaxError,
    }
}

/// The reply to a greeting from `domain`.
pub open spec fn greeting_reply(domain: Seq<u8>) -> ServerCommandView {
    ServerCommandView::HelloOk {
        domain,
        greet: Some("delayed greetings !".spec_bytes()),
        extensions: seq!["8BITMIME".spec_bytes()],
    }
}

/// The reply to `MAIL` inside a transaction.
pub open spec fn already_started() -> ServerCommandView {
    ServerCommandView::BadSequenceOfCommand("Mail sequence already started".spec_bytes())
}

/// The reply to a command that needs a transaction where none is open.
pub open spec fn no_transaction() -> ServerCommandView {
    ServerCommandView::BadSequenceOfCommand(
        "No mail sequence. Begin with a MAIL command".spec_bytes(),
    )
}

/// A session with no transaction open.
pub open spec fn idle() -> DialogView {
    DialogView { state: SessionState::AwaitingMail, mail: None }
}

/// What a command does to a session that is not closed.
pub open spec fn on_command(s: DialogView, command: ClientCommandView) -> (DialogView, OutcomeView) {
    match command {
        ClientCommandView::Hello(domain) => (idle(), answer(greeting_reply(domain))),
        ClientCommandView::Mail(from) => match s.mail {
            Some(_) => (s, answer(already_started())),
            None => (
                DialogView {
                    state: SessionState::BuildingTransaction,
                    mail: Some(MailView { from, receipients: Seq::empty(), content: Seq::empty() }),
                },
                answer(ServerCommandView::SenderOk),
            ),
        },
        ClientCommandView::Recipient(to) => match s.mail {
            Some(m) => (
                DialogView {
                    state: s.state,
                    mail: Some(MailView { receipients: m.receipients.push(to), ..m }),
                },
                answer(ServerCommandView::RecipientOk),
            ),
            None => (s, answer(no_transaction())),
        },
        ClientCommandView::Data => match s.mail {
            Some(_) => (
                DialogView { state: SessionState::ReceivingData, mail: s.mail },
                answer(ServerCommandView::StartMailInput),
            ),
            None => (s, answer(ServerCommandView::StartMailInput)),
        },
        ClientCommandView::MailInput(content) => match s.mail {
            Some(m) => (
                idle(),
                OutcomeView {
                    reply: Some(ServerCommandView::MailOk),
                    mail: Some(MailView { content, ..m }),
                },
            ),
            None => (s, answer(no_transaction())),
        },
        ClientCommandView::Quit => (
            DialogView { state: SessionState::Closed, mail: None },
            answer(ServerCommandView::ClosingConnection),
        ),
        ClientCommandView::Reset => (idle(), answer(ServerCommandView::ResetOk)),
        ClientCommandView::Verify(_) => (s, answer(ServerCommandView::CommandNotImplemented)),
        ClientCommandView::Expand(_) => (s, answer(ServerCommandView::CommandNotImplemented)),
        ClientCommandView::Help(_) => (s, answer(ServerCommandView::CommandNotImplemented)),
        ClientCommandView::Noop(_) => (s, answer(ServerCommandView::NoopOk)),
    }
}

/// What an event does to a session. A closed session stays closed and silent;
/// a failure of the transport changes nothing and gets no reply.
pub open spec fn step(s: DialogView, event: Event) -> (DialogView, OutcomeView) {
    if s.state == SessionState::Closed {
        (s, silence())
    } else {
        match event {
            Event::Command(command) => on_command(s, command),
            Event::Rejected(fault) => (s, answer(rejection(fault))),
            Event::ReadFailed => (s, silence()),
        }
    }
}

/// The dialog of one session: it takes the items of the command stream one
/// by one and assembles the message of the open transaction.
#[derive(Debug)]
pub struct MailReceiver {
    state: SessionState,
    current_mail: Option<Mail>,
}

impl View for MailReceiver {
    type V = DialogView;

    closed spec fn view(&self) -> DialogView {
        DialogView {
            state: self.state,
            mail: match self.current_mail {
                Some(m) => Some(m@),
                None => None,
            },
        }
    }
}

fn reply_with(reply: ServerCommand) -> (out: Outcome)
    ensures
        out@ == answer(reply@),
{
    Outcome { reply: Some(reply), mail: None }
}

fn no_transaction_reply() -> (reply: ServerCommand)
    ensures
        reply@ == no_transaction(),
{
    ServerCommand::BadSequenceOfCommand("No mail sequence. Begin with a MAIL command".to_owned())
}

impl MailReceiver {
    /// A session that has received nothing yet.
    pub fn new() -> (session: Self)
        ensures
            session@ == (DialogView { state: SessionState::AwaitingEhlo, mail: None }),
    {
        MailReceiver { state: SessionState::AwaitingEhlo, current_mail: None }
    }

    /// The reply that opens a session of the server `domain`.
    pub fn opening(domain: String) -> (reply: ServerCommand)
        ensures
            reply@ == ServerCommandView::OpeningMessage(vstd::utf8::encode_utf8(domain@)),
    {
        ServerCommand::OpeningMessage(domain)
    }

    /// Where the dialog stands.
    pub fn state(&self) -> (state: SessionState)
        ensures
            state == self@.state,
    {
        self.state
    }

    /// Whether `QUIT` ended the dialog.
    pub fn is_closed(&self) -> (closed: bool)
        ensures
            closed == (self@.state == SessionState::Closed),
    {
        self.state == SessionState::Closed
    }

    /// Takes one item of the command stream and says what to do about it.
    pub fn handle(&mut self, item: Result<ClientCommand, SmtpError>) -> (out: Outcome)
        ensures
            (final(self)@, out@) == step(old(self)@, event_of(item)),
    {
        if self.state == SessionState::Closed {
            return Outcome { reply: None, mail: None };
        }
        match item {
            Ok(command) => self.handle_command(command),
            Err(SmtpError::Command(e)) => match e {
                ClientCommandParseError::MissingCommand => reply_with(
                    ServerCommand::CommandUnrecognized,
                ),
                ClientCommandParseError::InvalidCommand(_) => reply_with(
                    ServerCommand::CommandUnrecognized,
                ),
                _ => reply_with(ServerCommand::SyntaxError),
            },
            Err(SmtpError::Io(_)) => Outcome { reply: None, mail: None },
        }
    }

    fn handle_command(&mut self, command: ClientCommand) -> (out: Outcome)
        ensures
            (final(self)@, out@) == on_command(old(self)@, command@),
    {
        match command {
            ClientCommand::Hello(domain) => {
                self.state = SessionState::AwaitingMail;
                self.current_mail = None;
                let mut extensions: Vec<String> = Vec::new();
                extensions.push("8BITMIME".to_owned());
                let reply = ServerCommand::HelloOk {
                    domain,
                    greet: Some("delayed greetings !".to_owned()),
                    extensions,
                };
                assert(reply@ == greeting_reply(vstd::utf8::encode_utf8(domain@))) by {
                    assert(super::bytes::texts(extensions@) =~= seq!["8BITMIME".spec_bytes()]);
                }
                reply_with(reply)
            },
            ClientCommand::Mail(from) => {
                if self.current_mail.is_some() {
                    reply_with(
                        ServerCommand::BadSequenceOfCommand(
                            "Mail sequence already started".to_owned(),
                        ),
                    )
                } else {
                    self.state = SessionState::BuildingTransaction;
                    self.current_mail = Some(Mail::new(from));
                    reply_with(ServerCommand::SenderOk)
                }
            },
            ClientCommand::Recipient(to) => {
                match self.current_mail.take() {
                    Some(mut mail) => {
                        mail.receipients.push(to);
                        assert(mail@.receipients =~= old(self)@.mail->0.receipients.push(to@));
                        self.current_mail = Some(mail);
                        reply_with(ServerCommand::RecipientOk)
                    },
                    None => reply_with(no_transaction_reply()),
                }
            },
            ClientCommand::Data => {
                if self.current_mail.is_some() {
                    self.state = SessionState::ReceivingData;
                }
                reply_with(ServerCommand::StartMailInput)
            },
            ClientCommand::MailInput(content) => {
                match self.current_mail.take() {
                    Some(mut mail) => {
                        mail.content = content;
                        self.state = SessionState::AwaitingMail;
                        Outcome { reply: Some(ServerCommand::MailOk), mail: Some(mail) }
                    },
                    None => reply_with(no_transaction_reply()),
                }
            },
            ClientCommand::Quit => {
                self.state = SessionState::Closed;
                self.current_mail = None;
                reply_with(ServerCommand::ClosingConnection)
            },
            ClientCommand::Reset => {
                self.state = SessionState::AwaitingMail;
                self.current_mail = None;
                reply_with(ServerCommand::ResetOk)
            },
            ClientCommand::Verify(_) => reply_with(ServerCommand::CommandNotImplemented),
            ClientCommand::Expand(_) => reply_with(ServerCommand::CommandNotImplemented),
            ClientCommand::Help(_) => reply_with(ServerCommand::CommandNotImplemented),
            ClientCommand::Noop(_) => reply_with(ServerCommand::NoopOk),
        }
    }
}

} // verus!
