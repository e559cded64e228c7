//! The line framer: from the bytes of a client to commands and payloads.

use super::bytes::{same_bytes, CR, DOT, LF};
use super::command::{
    parse_line, parse_view, ClientCommand, ClientCommandParseError, ClientCommandView, ParseFault,
};
use vstd::prelude::*;
use vstd::string::*;

verus! {

/// A CR stands at `i` in `s`, and an LF right after it.
pub open spec fn crlf_at(s: Seq<u8>, i: int) -> bool {
    0 <= i && i + 1 < s.len() && s[i] == CR && s[i + 1] == LF
}

/// The position of the first CR that an LF follows, or the length of `s`
/// where there is none.
pub open spec fn crlf_position(s: Seq<u8>) -> int
    decreases s.len(),
{
    if s.len() < 2 {
        s.len() as int
    } else if crlf_at(s, 0) {
        0
    } else {
        1 + crlf_position(s.drop_first())
    }
}

/// The length of the first line of `s`, its CR LF included, or 0 where `s`
/// holds no complete line.
pub open spec fn first_line_len(s: Seq<u8>) -> int {
    if crlf_position(s) < s.len() {
        crlf_position(s) + 2
    } else {
        0
    }
}

/// `crlf_position` is the least position of a CR LF.
pub proof fn lemma_crlf_position(s: Seq<u8>)
    ensures
        0 <= crlf_position(s) <= s.len(),
        crlf_position(s) < s.len() ==> crlf_at(s, crlf_position(s)),
        forall|j: int| 0 <= j < crlf_position(s) ==> !crlf_at(s, j),
    decreases s.len(),
{
    if s.len() < 2 {
    } else if crlf_at(s, 0) {
    } else {
        let t = s.drop_first();
        lemma_crlf_position(t);
        assert forall|j: int| 0 <= j < crlf_position(s) implies !crlf_at(s, j) by {
            if j > 0 {
                assert(crlf_at(s, j) == crlf_at(t, j - 1));
            }
        }
    }
}

/// A CR LF with none before it is where `crlf_position` points.
pub proof fn lemma_crlf_position_is(s: Seq<u8>, i: int)
    requires
        0 <= i <= s.len(),
        i < s.len() ==> crlf_at(s, i),
        forall|j: int| 0 <= j < i ==> !crlf_at(s, j),
    ensures
        crlf_position(s) == i,
{
    lemma_crlf_position(s);
    if crlf_position(s) < i {
        assert(crlf_at(s, crlf_position(s)));
    }
}

/// The line that ends a payload.
pub open spec fn end_of_data() -> Seq<u8> {
    seq![DOT, CR, LF]
}

/// A payload line as it was before the client doubled its leading dot.
pub open spec fn unstuff(line: Seq<u8>) -> Seq<u8> {
    if line.len() > 0 && line[0] == DOT {
        line.drop_first()
    } else {
        line
    }
}

/// A framer as bytes.
pub struct FramerView {
    /// Whether a payload is being read.
    pub data: bool,
    /// What was received and not framed yet.
    pub buffer: Seq<u8>,
    /// The lines of the payload read so far.
    pub payload: Seq<u8>,
}

/// What the framer yields from what it holds, and what it holds afterwards.
///
/// Outside of a payload the first line is parsed as a command, and `DATA`
/// opens a payload. Inside a payload each line is added, without the dot that
/// the client doubled, until the line `.` closes the payload, which is then
/// yielded whole. Without a complete line nothing is yielded, and the bytes
/// stay.
pub open spec fn scan(f: FramerView) -> (FramerView, Option<Result<ClientCommandView, ParseFault>>)
    decreases f.buffer.len(),
{
    let n = first_line_len(f.buffer);
    if n <= 0 || n > f.buffer.len() {
        (f, None)
    } else {
        let line = f.buffer.take(n);
        let rest = f.buffer.skip(n);
        if !f.data {
            (
                FramerView {
                    data: parse_line(line) == Ok::<ClientCommandView, ParseFault>(
                        ClientCommandView::Data,
                    ),
                    buffer: rest,
                    payload: f.payload,
                },
                Some(parse_line(line)),
            )
        } else if line == end_of_data() {
            (
                FramerView { data: false, buffer: rest, payload: Seq::empty() },
                Some(Ok(ClientCommandView::MailInput(f.payload))),
            )
        } else {
            scan(FramerView { data: true, buffer: rest, payload: f.payload + unstuff(line) })
        }
    }
}

/// What a step of the framer gives, as bytes.
pub open spec fn item_view(item: Option<Result<ClientCommand, ClientCommandParseError>>) -> Option<
    Result<ClientCommandView, ParseFault>,
> {
    match item {
        Some(r) => Some(parse_view(r)),
        None => None,
    }
}

/// The length of the first line of `buffer`, or 0.
pub fn find_line(buffer: &[u8]) -> (n: usize)
    ensures
        n == first_line_len(buffer@),
{
    let mut i: usize = 0;
    while buffer.len() - i >= 2
        invariant
            i <= buffer.len(),
            forall|j: int| 0 <= j < i ==> !crlf_at(buffer@, j),
        decreases buffer.len() - i,
    {
        if buffer[i] == CR && buffer[i + 1] == LF {
            proof {
                lemma_crlf_position_is(buffer@, i as int);
            }
            return i + 2;
        }
        i += 1;
    }
    proof {
        lemma_crlf_position_is(buffer@, buffer@.len() as int);
    }
    0
}

/// Frames the bytes of a client into commands and payloads.
#[derive(Debug)]
pub struct CommandIter {
    data: bool,
    buffer: Vec<u8>,
    payload: Vec<u8>,
}

impl View for CommandIter {
    type V = FramerView;

    closed spec fn view(&self) -> FramerView {
        FramerView { data: self.data, buffer: self.buffer@, payload: self.payload@ }
    }
}

impl CommandIter {
    /// A framer that holds nothing and expects a command.
    pub fn new() -> (framer: Self)
        ensures
            framer@ == (FramerView { data: false, buffer: Seq::empty(), payload: Seq::empty() }),
    {
        CommandIter { data: false, buffer: Vec::new(), payload: Vec::new() }
    }

    /// Whether a payload is being read.
    pub fn in_data_mode(&self) -> (data: bool)
        ensures
            data == self@.data,
    {
        self.data
    }

    /// The number of bytes received and not framed yet.
    pub fn pending(&self) -> (n: usize)
        ensures
            n == self@.buffer.len(),
    {
        self.buffer.len()
    }

    /// Takes bytes that the transport delivered.
    pub fn feed(&mut self, bytes: &[u8])
        ensures
            final(self)@ == (FramerView { buffer: old(self)@.buffer + bytes@, ..old(self)@ }),
    {
        super::bytes::push_all(&mut self.buffer, bytes);
    }

    /// Takes the first line out of the buffer.
    fn take_line(&mut self, n: usize) -> (line: Vec<u8>)
        requires
            n <= old(self)@.buffer.len(),
        ensures
            line@ == old(self)@.buffer.take(n as int),
            final(self)@ == (FramerView { buffer: old(self)@.buffer.skip(n as int), ..old(self)@ }),
    {
        let mut line = self.buffer.split_off(n);
        core::mem::swap(&mut self.buffer, &mut line);
        line
    }

    /// Yields the next command or payload, if the bytes received so far hold one.
    pub fn next_item(&mut self) -> (item: Option<Result<ClientCommand, ClientCommandParseError>>)
        ensures
            (final(self)@, item_view(item)) == scan(old(self)@),
    {
        loop
            invariant
                scan(self@) == scan(old(self)@),
            decreases self@.buffer.len(),
        {
            let n = find_line(self.buffer.as_slice());
            proof {
                lemma_crlf_position(self@.buffer);
            }
            if n == 0 {
                return None;
            }
            let mut line = self.take_line(n);
            if !self.data {
                let parsed = ClientCommand::from_bytes(line.as_slice());
                if let Ok(ClientCommand::Data) = parsed {
                    self.data = true;
                }
                return Some(parsed);
            }
            proof {
                reveal_strlit(".\r\n");
                super::bytes::lemma_ascii_text(".\r\n");
                assert(".\r\n".spec_bytes() =~= end_of_data());
            }
            if same_bytes(line.as_slice(), ".\r\n".as_bytes()) {
                self.data = false;
                let mut content: Vec<u8> = Vec::new();
                core::mem::swap(&mut content, &mut self.payload);
                return Some(Ok(ClientCommand::MailInput(content)));
            }
            if line[0] == DOT {
                line.remove(0);
            }
            self.payload.append(&mut line);
        }
    }
}

} // verus!
