//! The commands a client sends, and the parser that reads one from a line.

use super::address::{address_fault, AddressFault, BadAddressError, EmailAddress};
use super::bytes::{
    all_ascii, copy_range, find, find_byte, has_prefix, is_ascii_bytes, lemma_find,
    optional_text, same_bytes, to_upper, upper_all, CR, GREATER, LF, SPACE,
};
use vstd::prelude::*;
use vstd::slice::{slice_subrange, slice_to_vec};
use vstd::string::*;
use vstd::utf8::*;

verus! {

/// What a client asks for.
#[derive(Debug)]
pub enum ClientCommand {
    Hello(String),
    Mail(EmailAddress),
    Recipient(EmailAddress),
    Data,
    MailInput(Vec<u8>),
    Quit,
    Reset,
    Verify(String),
    Expand(String),
    Help(Option<String>),
    Noop(Option<String>),
}

/// A command as bytes: each text stands for its UTF-8 encoding, each address
/// for its textual form.
pub enum ClientCommandView {
    Hello(Seq<u8>),
    Mail(Seq<u8>),
    Recipient(Seq<u8>),
    Data,
    MailInput(Seq<u8>),
    Quit,
    Reset,
    Verify(Seq<u8>),
    Expand(Seq<u8>),
    Help(Option<Seq<u8>>),
    Noop(Option<Seq<u8>>),
}

impl View for ClientCommand {
    type V = ClientCommandView;

    open spec fn view(&self) -> ClientCommandView {
        match self {
            ClientCommand::Hello(domain) => ClientCommandView::Hello(encode_utf8(domain@)),
            ClientCommand::Mail(from) => ClientCommandView::Mail(from@),
            ClientCommand::Recipient(to) => ClientCommandView::Recipient(to@),
            ClientCommand::Data => ClientCommandView::Data,
            ClientCommand::MailInput(content) => ClientCommandView::MailInput(content@),
            ClientCommand::Quit => ClientCommandView::Quit,
            ClientCommand::Reset => ClientCommandView::Reset,
            ClientCommand::Verify(text) => ClientCommandView::Verify(encode_utf8(text@)),
            ClientCommand::Expand(text) => ClientCommandView::Expand(encode_utf8(text@)),
            ClientCommand::Help(text) => ClientCommandView::Help(optional_text(*text)),
            ClientCommand::Noop(text) => ClientCommandView::Noop(optional_text(*text)),
        }
    }
}

/// Why a line is no command.
#[derive(Debug)]
pub enum ClientCommandParseError {
    /// The line does not end with CRLF.
    BadEol,
    /// The line holds no verb.
    MissingCommand,
    /// The command needs a domain or a path and has none.
    MissingDomain,
    /// The argument does not open as the command asks.
    SyntaxInvalid,
    /// The verb holds a byte that is not ASCII.
    InvalidCommandCharacter,
    /// The argument is no UTF-8 text.
    InvalidCharacter(std::string::FromUtf8Error),
    /// The verb, in upper case, names no command.
    InvalidCommand(String),
    /// The command needs a parameter and has none.
    MissingParameter,
    /// The forward path is no address.
    InvalidRecipient(BadAddressError),
    /// The reverse path is no address.
    InvalidFrom(BadAddressError),
}

/// Why a line is no command, as bytes.
pub enum ParseFault {
    BadEol,
    MissingCommand,
    MissingDomain,
    SyntaxInvalid,
    InvalidCommandCharacter,
    InvalidCharacter,
    InvalidCommand(Seq<u8>),
    MissingParameter,
    InvalidRecipient(AddressFault),
    InvalidFrom(AddressFault),
}

impl View for ClientCommandParseError {
    type V = ParseFault;

    open spec fn view(&self) -> ParseFault {
        match self {
            ClientCommandParseError::BadEol => ParseFault::BadEol,
            ClientCommandParseError::MissingCommand => ParseFault::MissingCommand,
            ClientCommandParseError::MissingDomain => ParseFault::MissingDomain,
            ClientCommandParseError::SyntaxInvalid => ParseFault::SyntaxInvalid,
            ClientCommandParseError::InvalidCommandCharacter => ParseFault::InvalidCommandCharacter,
            ClientCommandParseError::InvalidCharacter(_) => ParseFault::InvalidCharacter,
            ClientCommandParseError::InvalidCommand(verb) => ParseFault::InvalidCommand(
                encode_utf8(verb@),
            ),
            ClientCommandParseError::MissingParameter => ParseFault::MissingParameter,
            ClientCommandParseError::InvalidRecipient(e) => ParseFault::InvalidRecipient(e@),
            ClientCommandParseError::InvalidFrom(e) => ParseFault::InvalidFrom(e@),
        }
    }
}

/// What a parse gives, as bytes.
pub open spec fn parse_view(r: Result<ClientCommand, ClientCommandParseError>) -> Result<
    ClientCommandView,
    ParseFault,
> {
    match r {
        Ok(command) => Ok(command@),
        Err(e) => Err(e@),
    }
}

/// The line closes with CR LF.
pub open spec fn ends_with_crlf(line: Seq<u8>) -> bool {
    line.len() >= 2 && line[line.len() - 2] == CR && line[line.len() - 1] == LF
}

/// The line without its closing CR LF.
pub open spec fn line_body(line: Seq<u8>) -> Seq<u8> {
    line.take(line.len() - 2)
}

/// The verb of a line: what stands before its first space.
pub open spec fn line_verb(line: Seq<u8>) -> Seq<u8> {
    line_body(line).take(find(line_body(line), SPACE))
}

/// The argument of a line: what follows its first space, where it has one.
pub open spec fn line_argument(line: Seq<u8>) -> Option<Seq<u8>> {
    let body = line_body(line);
    if find(body, SPACE) < body.len() {
        Some(body.skip(find(body, SPACE) + 1))
    } else {
        None
    }
}

/// The address that `MAIL` reads from its argument: what follows `FROM:` up
/// to and including the first `>`, or all of it where it holds no `>`.
pub open spec fn reverse_path(argument: Seq<u8>) -> Seq<u8> {
    let path = argument.skip("FROM:".spec_bytes().len() as int);
    if find(path, GREATER) < path.len() {
        path.take(find(path, GREATER) + 1)
    } else {
        path
    }
}

/// The address that `RCPT` reads from its argument: what follows `TO:` in the
/// first word.
pub open spec fn forward_path(argument: Seq<u8>) -> Seq<u8> {
    argument.take(find(argument, SPACE)).skip("TO:".spec_bytes().len() as int)
}

/// A text argument is its bytes, where they are UTF-8.
pub open spec fn parse_text(argument: Seq<u8>) -> Result<Seq<u8>, ParseFault> {
    if valid_utf8(argument) {
        Ok(argument)
    } else {
        Err(ParseFault::InvalidCharacter)
    }
}

/// What `EHLO` or `HELO` means with this argument.
pub open spec fn parse_hello(argument: Option<Seq<u8>>) -> Result<ClientCommandView, ParseFault> {
    match argument {
        None => Err(ParseFault::MissingDomain),
        Some(a) => match parse_text(a) {
            Ok(domain) => Ok(ClientCommandView::Hello(domain)),
            Err(e) => Err(e),
        },
    }
}

/// What `MAIL` means with this argument.
pub open spec fn parse_mail(argument: Option<Seq<u8>>) -> Result<ClientCommandView, ParseFault> {
    match argument {
        None => Err(ParseFault::MissingDomain),
        Some(a) => if !"FROM:".spec_bytes().is_prefix_of(a) {
            Err(ParseFault::SyntaxInvalid)
        } else {
            match address_fault(reverse_path(a)) {
                Some(fault) => Err(ParseFault::InvalidFrom(fault)),
                None => Ok(ClientCommandView::Mail(reverse_path(a))),
            }
        },
    }
}

/// What `RCPT` means with this argument.
pub open spec fn parse_recipient(argument: Option<Seq<u8>>) -> Result<
    ClientCommandView,
    ParseFault,
> {
    match argument {
        None => Err(ParseFault::MissingDomain),
        Some(a) => if !"TO:".spec_bytes().is_prefix_of(a.take(find(a, SPACE))) {
            Err(ParseFault::SyntaxInvalid)
        } else {
            match address_fault(forward_path(a)) {
                Some(fault) => Err(ParseFault::InvalidRecipient(fault)),
                None => Ok(ClientCommandView::Recipient(forward_path(a))),
            }
        },
    }
}

/// What a verb in upper case and its argument mean.
pub open spec fn parse_verb(verb: Seq<u8>, argument: Option<Seq<u8>>) -> Result<
    ClientCommandView,
    ParseFault,
> {
    if verb == "EHLO".spec_bytes() || verb == "HELO".spec_bytes() {
        parse_hello(argument)
    } else if verb == "MAIL".spec_bytes() {
        parse_mail(argument)
    } else if verb == "RCPT".spec_bytes() {
        parse_recipient(argument)
    } else if verb == "DATA".spec_bytes() {
        Ok(ClientCommandView::Data)
    } else if verb == "QUIT".spec_bytes() {
        Ok(ClientCommandView::Quit)
    } else if verb == "RSET".spec_bytes() {
        Ok(ClientCommandView::Reset)
    } else if verb == "VRFY".spec_bytes() {
        match argument {
            None => Err(ParseFault::MissingParameter),
            Some(a) => match parse_text(a) {
                Ok(text) => Ok(ClientCommandView::Verify(text)),
                Err(e) => Err(e),
            },
        }
    } else if verb == "EXPN".spec_bytes() {
        match argument {
            None => Err(ParseFault::MissingParameter),
            Some(a) => match parse_text(a) {
                Ok(text) => Ok(ClientCommandView::Expand(text)),
                Err(e) => Err(e),
            },
        }
    } else if verb == "HELP".spec_bytes() {
        match argument {
            None => Ok(ClientCommandView::Help(None)),
            Some(a) => match parse_text(a) {
                Ok(text) => Ok(ClientCommandView::Help(Some(text))),
                Err(e) => Err(e),
            },
        }
    } else if verb == "NOOP".spec_bytes() {
        match argument {
            None => Ok(ClientCommandView::Noop(None)),
            Some(a) => match parse_text(a) {
                Ok(text) => Ok(ClientCommandView::Noop(Some(text))),
                Err(e) => Err(e),
            },
        }
    } else {
        Err(ParseFault::InvalidCommand(verb))
    }
}

/// What one line means.
pub open spec fn parse_line(line: Seq<u8>) -> Result<ClientCommandView, ParseFault> {
    if !ends_with_crlf(line) {
        Err(ParseFault::BadEol)
    } else if line_verb(line).len() == 0 {
        Err(ParseFault::MissingCommand)
    } else if !is_ascii_bytes(line_verb(line)) {
        Err(ParseFault::InvalidCommandCharacter)
    } else {
        parse_verb(upper_all(line_verb(line)), line_argument(line))
    }
}

/// Bytes below 128 form a UTF-8 text.
pub proof fn lemma_ascii_is_utf8(b: Seq<u8>)
    requires
        is_ascii_bytes(b),
    ensures
        valid_utf8(b),
{
    assert(b.subrange(0, 0) =~= Seq::<u8>::empty());
    assert(partial_valid_utf8(b, 0));
    partial_valid_utf8_extend_ascii_block(b, 0, b.len() as int);
    assert(b.subrange(0, b.len() as int) =~= b);
}

/// The bytes of an optional argument.
pub open spec fn optional_bytes(argument: Option<&[u8]>) -> Option<Seq<u8>> {
    match argument {
        Some(a) => Some(a@),
        None => None,
    }
}

/// Reads a text argument.
fn read_text(argument: &[u8]) -> (r: Result<String, ClientCommandParseError>)
    ensures
        match r {
            Ok(text) => parse_text(argument@) == Ok::<Seq<u8>, ParseFault>(encode_utf8(text@)),
            Err(e) => parse_text(argument@) == Err::<Seq<u8>, ParseFault>(e@),
        },
{
    match String::from_utf8(slice_to_vec(argument)) {
        Ok(text) => Ok(text),
        Err(e) => Err(ClientCommandParseError::InvalidCharacter(e)),
    }
}

impl ClientCommand {
    /// Parses one line, its closing CR LF included.
    pub fn from_bytes(bytes: &[u8]) -> (r: Result<Self, ClientCommandParseError>)
        ensures
            parse_view(r) == parse_line(bytes@),
    {
        let n = bytes.len();
        if n < 2 || bytes[n - 2] != CR || bytes[n - 1] != LF {
            return Err(ClientCommandParseError::BadEol);
        }
        let body = slice_subrange(bytes, 0, n - 2);
        let space = find_byte(body, SPACE);
        proof {
            lemma_find(body@, SPACE);
        }
        let verb = slice_subrange(body, 0, space);
        if verb.len() == 0 {
            return Err(ClientCommandParseError::MissingCommand);
        }
        if !all_ascii(verb) {
            return Err(ClientCommandParseError::InvalidCommandCharacter);
        }
        let argument = if space < body.len() {
            Some(slice_subrange(body, space + 1, body.len()))
        } else {
            None
        };
        Self::from_verb(to_upper(verb), argument)
    }

    /// Reads the command that `verb`, in upper case, and `argument` form.
    fn from_verb(verb: Vec<u8>, argument: Option<&[u8]>) -> (r: Result<
        Self,
        ClientCommandParseError,
    >)
        requires
            is_ascii_bytes(verb@),
        ensures
            parse_view(r) == parse_verb(verb@, optional_bytes(argument)),
    {
        let name = verb.as_slice();
        if same_bytes(name, "EHLO".as_bytes()) || same_bytes(name, "HELO".as_bytes()) {
            match argument {
                None => Err(ClientCommandParseError::MissingDomain),
                Some(a) => match read_text(a) {
                    Ok(domain) => Ok(ClientCommand::Hello(domain)),
                    Err(e) => Err(e),
                },
            }
        } else if same_bytes(name, "MAIL".as_bytes()) {
            match argument {
                None => Err(ClientCommandParseError::MissingDomain),
                Some(a) => Self::mail_from(a),
            }
        } else if same_bytes(name, "RCPT".as_bytes()) {
            match argument {
                None => Err(ClientCommandParseError::MissingDomain),
                Some(a) => Self::recipient_to(a),
            }
        } else if same_bytes(name, "DATA".as_bytes()) {
            Ok(ClientCommand::Data)
        } else if same_bytes(name, "QUIT".as_bytes()) {
            Ok(ClientCommand::Quit)
        } else if same_bytes(name, "RSET".as_bytes()) {
            Ok(ClientCommand::Reset)
        } else if same_bytes(name, "VRFY".as_bytes()) {
            match argument {
                None => Err(ClientCommandParseError::MissingParameter),
                Some(a) => match read_text(a) {
                    Ok(text) => Ok(ClientCommand::Verify(text)),
                    Err(e) => Err(e),
                },
            }
        } else if same_bytes(name, "EXPN".as_bytes()) {
            match argument {
                None => Err(ClientCommandParseError::MissingParameter),
                Some(a) => match read_text(a) {
                    Ok(text) => Ok(ClientCommand::Expand(text)),
                    Err(e) => Err(e),
                },
            }
        } else if same_bytes(name, "HELP".as_bytes()) {
            match argument {
                None => Ok(ClientCommand::Help(None)),
                Some(a) => match read_text(a) {
                    Ok(text) => Ok(ClientCommand::Help(Some(text))),
                    Err(e) => Err(e),
                },
            }
        } else if same_bytes(name, "NOOP".as_bytes()) {
            match argument {
                None => Ok(ClientCommand::Noop(None)),
                Some(a) => match read_text(a) {
                    Ok(text) => Ok(ClientCommand::Noop(Some(text))),
                    Err(e) => Err(e),
                },
            }
        } else {
            let ghost name_bytes = verb@;
            proof {
                lemma_ascii_is_utf8(name_bytes);
            }
            match String::from_utf8(verb) {
                Ok(text) => Err(ClientCommandParseError::InvalidCommand(text)),
                Err(_) => Err(ClientCommandParseError::InvalidCommandCharacter),
            }
        }
    }

    /// Reads the argument of `MAIL`.
    fn mail_from(argument: &[u8]) -> (r: Result<Self, ClientCommandParseError>)
        ensures
            parse_view(r) == parse_mail(Some(argument@)),
    {
        let keyword = "FROM:".as_bytes();
        if !has_prefix(argument, keyword) {
            return Err(ClientCommandParseError::SyntaxInvalid);
        }
        let path = slice_subrange(argument, keyword.len(), argument.len());
        let close = find_byte(path, GREATER);
        proof {
            lemma_find(path@, GREATER);
        }
        let end = if close < path.len() {
            close + 1
        } else {
            close
        };
        assert(path@.take(path@.len() as int) =~= path@);
        match EmailAddress::from_bytes(copy_range(path, 0, end)) {
            Ok(from) => Ok(ClientCommand::Mail(from)),
            Err(e) => Err(ClientCommandParseError::InvalidFrom(e)),
        }
    }

    /// Reads the argument of `RCPT`.
    fn recipient_to(argument: &[u8]) -> (r: Result<Self, ClientCommandParseError>)
        ensures
            parse_view(r) == parse_recipient(Some(argument@)),
    {
        let keyword = "TO:".as_bytes();
        let space = find_byte(argument, SPACE);
        proof {
            lemma_find(argument@, SPACE);
        }
        let word = slice_subrange(argument, 0, space);
        if !has_prefix(word, keyword) {
            return Err(ClientCommandParseError::SyntaxInvalid);
        }
        match EmailAddress::from_bytes(copy_range(word, keyword.len(), word.len())) {
            Ok(to) => Ok(ClientCommand::Recipient(to)),
            Err(e) => Err(ClientCommandParseError::InvalidRecipient(e)),
        }
    }
}

} // verus!
