//! The replies of the server, and their form on the wire.

use super::bytes::{optional_text, push_all, texts};
use vstd::prelude::*;
use vstd::string::*;
use vstd::utf8::*;

verus! {

/// What the server answers.
#[derive(Debug)]
pub enum ServerCommand {
    OpeningMessage(String),
    HelloOk { domain: String, greet: Option<String>, extensions: Vec<String> },
    SenderOk,
    RecipientOk,
    NoopOk,
    ResetOk,
    StartMailInput,
    MailOk,
    ClosingConnection,
    SyntaxError,
    CommandUnrecognized,
    CommandNotImplemented,
    BadSequenceOfCommand(String),
}

/// A reply as bytes: each text stands for its UTF-8 encoding.
pub enum ServerCommandView {
    OpeningMessage(Seq<u8>),
    HelloOk { domain: Seq<u8>, greet: Option<Seq<u8>>, extensions: Seq<Seq<u8>> },
    SenderOk,
    RecipientOk,
    NoopOk,
    ResetOk,
    StartMailInput,
    MailOk,
    ClosingConnection,
    SyntaxError,
    CommandUnrecognized,
    CommandNotImplemented,
    BadSequenceOfCommand(Seq<u8>),
}

impl View for ServerCommand {
    type V = ServerCommandView;

    open spec fn view(&self) -> ServerCommandView {
        match self {
            ServerCommand::OpeningMessage(domain) => ServerCommandView::OpeningMessage(
                encode_utf8(domain@),
            ),
            ServerCommand::HelloOk { domain, greet, extensions } => ServerCommandView::HelloOk {
                domain: encode_utf8(domain@),
                greet: optional_text(*greet),
                extensions: texts(extensions@),
            },
            ServerCommand::SenderOk => ServerCommandView::SenderOk,
            ServerCommand::RecipientOk => ServerCommandView::RecipientOk,
            ServerCommand::NoopOk => ServerCommandView::NoopOk,
            ServerCommand::ResetOk => ServerCommandView::ResetOk,
            ServerCommand::StartMailInput => ServerCommandView::StartMailInput,
            ServerCommand::MailOk => ServerCommandView::MailOk,
            ServerCommand::ClosingConnection => ServerCommandView::ClosingConnection,
            ServerCommand::SyntaxError => ServerCommandView::SyntaxError,
            ServerCommand::CommandUnrecognized => ServerCommandView::CommandUnrecognized,
            ServerCommand::CommandNotImplemented => ServerCommandView::CommandNotImplemented,
            ServerCommand::BadSequenceOfCommand(reason) => ServerCommandView::BadSequenceOfCommand(
                encode_utf8(reason@),
            ),
        }
    }
}

/// The lines of the reply to a greeting: the domain, followed by the greeting
/// text where there is one, then each extension.
pub open spec fn hello_lines(
    domain: Seq<u8>,
    greet: Option<Seq<u8>>,
    extensions: Seq<Seq<u8>>,
) -> Seq<Seq<u8>> {
    let first = match greet {
        Some(text) => domain + " ".spec_bytes() + text,
        None => domain,
    };
    seq![first] + extensions
}

/// A reply of code 250 in several lines: `250-` opens each line but the last,
/// `250 ` the last, and CR LF closes each.
pub open spec fn reply_250(lines: Seq<Seq<u8>>) -> Seq<u8>
    decreases lines.len(),
{
    if lines.len() == 0 {
        Seq::empty()
    } else if lines.len() == 1 {
        "250 ".spec_bytes() + lines[0] + "\r\n".spec_bytes()
    } else {
        "250-".spec_bytes() + lines[0] + "\r\n".spec_bytes() + reply_250(lines.drop_first())
    }
}

/// The bytes that a reply puts on the wire.
pub open spec fn wire(reply: ServerCommandView) -> Seq<u8> {
    match reply {
        ServerCommandView::OpeningMessage(domain) => "220 ".spec_bytes() + domain
            + " Service ready\r\n".spec_bytes(),
        ServerCommandView::HelloOk { domain, greet, extensions } => reply_250(
            hello_lines(domain, greet, extensions),
        ),
        ServerCommandView::SenderOk => "250 Sender Ok\r\n".spec_bytes(),
        ServerCommandView::RecipientOk => "250 Recipient Ok\r\n".spec_bytes(),
        ServerCommandView::NoopOk => "250 OK\r\n".spec_bytes(),
        ServerCommandView::ResetOk => "250 OK\r\n".spec_bytes(),
        ServerCommandView::StartMailInput =>
            "354  Start mail input; end with <CRLF>.<CRLF>\r\n".spec_bytes(),
        ServerCommandView::MailOk => "250 Mail Ok\r\n".spec_bytes(),
        ServerCommandView::ClosingConnection => "221 Closing connection\r\n".spec_bytes(),
        ServerCommandView::SyntaxError => "501 Syntax error\r\n".spec_bytes(),
        ServerCommandView::CommandUnrecognized => "500 Command unrecognized\r\n".spec_bytes(),
        ServerCommandView::CommandNotImplemented => "502 Not implemented\r\n".spec_bytes(),
        ServerCommandView::BadSequenceOfCommand(reason) => "503 Bad sequence of command. ".spec_bytes()
            + reason + "\r\n".spec_bytes(),
    }
}

impl ServerCommand {
    /// The bytes to send for this reply.
    pub fn into_bytes(self) -> (out: Vec<u8>)
        ensures
            out@ == wire(self@),
    {
        let mut out: Vec<u8> = Vec::new();
        match self {
            ServerCommand::OpeningMessage(domain) => {
                push_all(&mut out, "220 ".as_bytes());
                push_all(&mut out, domain.as_str().as_bytes());
                push_all(&mut out, " Service ready\r\n".as_bytes());
            },
            ServerCommand::HelloOk { domain, greet, extensions } => {
                let ghost lines = hello_lines(
                    encode_utf8(domain@),
                    optional_text(greet),
                    texts(extensions@),
                );
                let count = extensions.len();
                push_all(&mut out, if count == 0 {
                    "250 ".as_bytes()
                } else {
                    "250-".as_bytes()
                });
                push_all(&mut out, domain.as_str().as_bytes());
                if let Some(text) = greet {
                    push_all(&mut out, " ".as_bytes());
                    push_all(&mut out, text.as_str().as_bytes());
                }
                push_all(&mut out, "\r\n".as_bytes());
                assert(lines.skip(1) =~= lines.drop_first());
                let mut i: usize = 0;
                while i < count
                    invariant
                        i <= count == extensions@.len(),
                        lines.len() == count + 1,
                        forall|k: int| 0 <= k < count ==> lines[k + 1] == encode_utf8(#[trigger] extensions@[k]@),
                        reply_250(lines) == out@ + reply_250(lines.skip(i + 1)),
                    decreases count - i,
                {
                    let ghost rest = lines.skip(i + 1);
                    assert(rest.drop_first() =~= lines.skip(i + 2));
                    assert(rest[0] == lines[i + 1]);
                    push_all(&mut out, if i + 1 < count {
                        "250-".as_bytes()
                    } else {
                        "250 ".as_bytes()
                    });
                    push_all(&mut out, extensions[i].as_str().as_bytes());
                    push_all(&mut out, "\r\n".as_bytes());
                    i += 1;
                }
            },
            ServerCommand::SenderOk => {
                push_all(&mut out, "250 Sender Ok\r\n".as_bytes());
            },
            ServerCommand::RecipientOk => {
                push_all(&mut out, "250 Recipient Ok\r\n".as_bytes());
            },
            ServerCommand::NoopOk => {
                push_all(&mut out, "250 OK\r\n".as_bytes());
            },
            ServerCommand::ResetOk => {
                push_all(&mut out, "250 OK\r\n".as_bytes());
            },
            ServerCommand::StartMailInput => {
                push_all(&mut out, "354  Start mail input; end with <CRLF>.<CRLF>\r\n".as_bytes());
            },
            ServerCommand::MailOk => {
                push_all(&mut out, "250 Mail Ok\r\n".as_bytes());
            },
            ServerCommand::ClosingConnection => {
                push_all(&mut out, "221 Closing connection\r\n".as_bytes());
            },
            ServerCommand::SyntaxError => {
                push_all(&mut out, "501 Syntax error\r\n".as_bytes());
            },
            ServerCommand::CommandUnrecognized => {
                push_all(&mut out, "500 Command unrecognized\r\n".as_bytes());
            },
            ServerCommand::CommandNotImplemented => {
                push_all(&mut out, "502 Not implemented\r\n".as_bytes());
            },
            ServerCommand::BadSequenceOfCommand(reason) => {
                push_all(&mut out, "503 Bad sequence of command. ".as_bytes());
                push_all(&mut out, reason.as_str().as_bytes());
                push_all(&mut out, "\r\n".as_bytes());
            },
        }
        out
    }
}

} // verus!
