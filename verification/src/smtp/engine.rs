//! One session from bytes to bytes: the framer and the dialog together.

use super::bytes::push_all;
use super::command::{ClientCommandView, ParseFault};
use super::framer::{first_line_len, lemma_crlf_position, scan, unstuff, CommandIter, FramerView};
use super::mail::{Mail, MailView};
use super::response::{wire, ServerCommandView};
use super::session::{
    step, DialogView, Event, MailReceiver, Outcome, OutcomeView, SessionState, SmtpError,
};
use vstd::prelude::*;
use vstd::utf8::encode_utf8;

verus! {

/// A session as bytes: what its framer holds and where its dialog stands.
pub struct SessionView {
    pub framer: FramerView,
    pub dialog: DialogView,
}

/// What a session gives for the bytes it received: the bytes to send back,
/// and the messages that were completed, in order.
#[derive(Debug)]
pub struct Progress {
    pub output: Vec<u8>,
    pub mails: Vec<Mail>,
}

/// The progress of a session as bytes.
pub struct ProgressView {
    pub output: Seq<u8>,
    pub mails: Seq<MailView>,
}

/// Each message of a list as bytes.
pub open spec fn mail_views(mails: Seq<Mail>) -> Seq<MailView> {
    Seq::new(mails.len(), |i: int| mails[i]@)
}

impl View for Progress {
    type V = ProgressView;

    open spec fn view(&self) -> ProgressView {
        ProgressView { output: self.output@, mails: mail_views(self.mails@) }
    }
}

/// The event that an item of the framer stands for.
pub open spec fn framed_event(item: Result<ClientCommandView, ParseFault>) -> Event {
    match item {
        Ok(command) => Event::Command(command),
        Err(fault) => Event::Rejected(fault),
    }
}

/// The bytes that an outcome puts on the wire.
pub open spec fn output_of(outcome: OutcomeView) -> Seq<u8> {
    match outcome.reply {
        Some(reply) => wire(reply),
        None => Seq::empty(),
    }
}

/// The message that an outcome hands on, if any.
pub open spec fn mails_of(outcome: OutcomeView) -> Seq<MailView> {
    match outcome.mail {
        Some(mail) => seq![mail],
        None => Seq::empty(),
    }
}

/// Whenever the framer yields something, it has taken bytes out of its buffer.
pub proof fn lemma_scan_consumes(f: FramerView)
    ensures
        scan(f).1 is Some ==> scan(f).0.buffer.len() < f.buffer.len(),
        scan(f).1 is None ==> scan(f).0.buffer.len() <= f.buffer.len(),
    decreases f.buffer.len(),
{
    let n = first_line_len(f.buffer);
    lemma_crlf_position(f.buffer);
    if n > 0 && f.data {
        let line = f.buffer.take(n);
        let rest = f.buffer.skip(n);
        lemma_scan_consumes(
            FramerView { data: true, buffer: rest, payload: f.payload + unstuff(line) },
        );
    }
}

/// What a session does with what its framer holds: as long as it is open
/// and the framer yields an item, the dialog takes the item, its reply goes
/// to the output and its message, if it completes one, to the messages.
pub open spec fn pump(s: SessionView) -> (SessionView, ProgressView)
    decreases s.framer.buffer.len(),
{
    let scanned = scan(s.framer);
    if s.dialog.state == SessionState::Closed {
        (s, ProgressView { output: Seq::empty(), mails: Seq::empty() })
    } else if scanned.1 is None {
        (
            SessionView { framer: scanned.0, dialog: s.dialog },
            ProgressView { output: Seq::empty(), mails: Seq::empty() },
        )
    } else {
        proof {
            lemma_scan_consumes(s.framer);
        }
        let stepped = step(s.dialog, framed_event(scanned.1->0));
        let rest = pump(SessionView { framer: scanned.0, dialog: stepped.0 });
        (
            rest.0,
            ProgressView {
                output: output_of(stepped.1) + rest.1.output,
                mails: mails_of(stepped.1) + rest.1.mails,
            },
        )
    }
}

/// A session with `more` added to what its framer holds.
pub open spec fn fed(s: SessionView, more: Seq<u8>) -> SessionView {
    SessionView { framer: FramerView { buffer: s.framer.buffer + more, ..s.framer }, dialog: s.dialog }
}

/// The server side of one SMTP session, from the bytes that the client sent
/// to the bytes to send back.
#[derive(Debug)]
pub struct Session {
    commands: CommandIter,
    receiver: MailReceiver,
}

impl View for Session {
    type V = SessionView;

    closed spec fn view(&self) -> SessionView {
        SessionView { framer: self.commands@, dialog: self.receiver@ }
    }
}

impl Session {
    /// Opens a session of the server `domain`: gives the session, which has
    /// received nothing yet, and the bytes that greet the client.
    pub fn new(domain: String) -> (opened: (Self, Vec<u8>))
        ensures
            opened.0@ == (SessionView {
                framer: FramerView { data: false, buffer: Seq::empty(), payload: Seq::empty() },
                dialog: DialogView { state: SessionState::AwaitingEhlo, mail: None },
            }),
            opened.1@ == wire(ServerCommandView::OpeningMessage(encode_utf8(domain@))),
    {
        let greeting = MailReceiver::opening(domain).into_bytes();
        (Session { commands: CommandIter::new(), receiver: MailReceiver::new() }, greeting)
    }

    /// Where the dialog stands.
    pub fn state(&self) -> (state: SessionState)
        ensures
            state == self@.dialog.state,
    {
        self.receiver.state()
    }

    /// Whether `QUIT` ended the session.
    pub fn is_closed(&self) -> (closed: bool)
        ensures
            closed == (self@.dialog.state == SessionState::Closed),
    {
        self.receiver.is_closed()
    }

    /// Takes note that the transport failed to deliver. The dialog stays
    /// where it is, and nothing is sent.
    pub fn read_failed(&mut self, error: std::io::Error) -> (out: Outcome)
        ensures
            final(self)@.framer == old(self)@.framer,
            (final(self)@.dialog, out@) == step(old(self)@.dialog, Event::ReadFailed),
    {
        self.receiver.handle(Err(SmtpError::Io(error)))
    }

    /// Takes the bytes that the transport delivered and goes through every
    /// command and payload that is now complete.
    pub fn receive(&mut self, input: &[u8]) -> (progress: Progress)
        ensures
            (final(self)@, progress@) == pump(fed(old(self)@, input@)),
    {
        self.commands.feed(input);
        let ghost start = self@;
        let mut output: Vec<u8> = Vec::new();
        let mut mails: Vec<Mail> = Vec::new();
        loop
            invariant_except_break
                pump(start) == (
                    pump(self@).0,
                    ProgressView {
                        output: output@ + pump(self@).1.output,
                        mails: mail_views(mails@) + pump(self@).1.mails,
                    },
                ),
            ensures
                pump(start) == (
                    self@,
                    ProgressView { output: output@, mails: mail_views(mails@) },
                ),
            decreases self@.framer.buffer.len(),
        {
            proof {
                lemma_scan_consumes(self@.framer);
                assert(output@ + Seq::<u8>::empty() =~= output@);
                assert(mail_views(mails@) + Seq::<MailView>::empty() =~= mail_views(mails@));
            }
            if self.receiver.is_closed() {
                break;
            }
            let item = match self.commands.next_item() {
                None => {
                    break;
                },
                Some(Ok(command)) => Ok(command),
                Some(Err(e)) => Err(SmtpError::Command(e)),
            };
            let outcome = self.receiver.handle(item);
            let ghost before = (output@, mail_views(mails@));
            if let Some(reply) = outcome.reply {
                let bytes = reply.into_bytes();
                push_all(&mut output, bytes.as_slice());
            }
            if let Some(mail) = outcome.mail {
                mails.push(mail);
            }
            proof {
                assert(mail_views(mails@) =~= before.1 + mails_of(outcome@));
                assert(output@ =~= before.0 + output_of(outcome@));
                let rest = pump(self@).1;
                assert(before.0 + (output_of(outcome@) + rest.output) =~= output@ + rest.output);
                assert(before.1 + (mails_of(outcome@) + rest.mails) =~= mail_views(mails@) + rest.mails);
            }
        }
        Progress { output, mails }
    }
}

} // verus!
