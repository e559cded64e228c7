//! From a bundle that the DTN layer delivered to the message that is handed
//! to the local delivery agent.

use crate::smtp::bytes::{find, find_byte, lemma_find, same_bytes, AT};
use vstd::prelude::*;
use vstd::slice::slice_subrange;
use vstd::string::*;
use vstd::utf8::*;

verus! {

/// The addresses that the header of a message names: for each entry of its
/// `From` and of its `To` field the address, where the entry has one.
#[derive(Debug)]
pub struct HeaderAddresses {
    pub from: Vec<Option<String>>,
    pub to: Vec<Option<String>>,
}

/// The addresses of a header as bytes.
pub struct HeaderView {
    pub from: Seq<Option<Seq<u8>>>,
    pub to: Seq<Option<Seq<u8>>>,
}

/// The bytes of each address of a list.
pub open spec fn entries(list: Seq<Option<String>>) -> Seq<Option<Seq<u8>>> {
    Seq::new(
        list.len(),
        |i: int|
            match list[i] {
                Some(a) => Some(encode_utf8(a@)),
                None => None,
            },
    )
}

impl View for HeaderAddresses {
    type V = HeaderView;

    open spec fn view(&self) -> HeaderView {
        HeaderView { from: entries(self.from@), to: entries(self.to@) }
    }
}

/// What a read of the header gives, as bytes.
pub open spec fn header_view(header: Option<HeaderAddresses>) -> Option<HeaderView> {
    match header {
        Some(h) => Some(h@),
        None => None,
    }
}

/// The addresses that the mail parser reads from the header of `raw`, or
/// `None` where it finds no header field at all.
pub uninterp spec fn parsed_header(raw: Seq<u8>) -> Option<HeaderView>;

/// Reads the `From` and `To` fields of `raw` with
/// `mail_parser::MessageParser::parse`, under the parser's default settings,
/// and lists what `Message::from` and `Message::to` then hold, entry by entry
/// as `Address::iter` walks them. Nothing is claimed of the outcome but that
/// the bytes of `raw` determine it.
#[verifier::external_body]
fn read_header(raw: &[u8]) -> (header: Option<HeaderAddresses>)
    ensures
        header_view(header) == parsed_header(raw@),
{
    let message = mail_parser::MessageParser::default().parse(raw)?;
    let list = |field: Option<&mail_parser::Address>| -> Vec<Option<String>> {
        field.into_iter().flat_map(|a| a.iter()).map(
            |entry| entry.address.as_ref().map(|a| a.to_string()),
        ).collect()
    };
    Some(HeaderAddresses { from: list(message.from()), to: list(message.to()) })
}

/// A message that the DTN layer delivered, ready for local delivery.
#[derive(Debug)]
pub struct ReceivedMessage {
    pub raw_message: Vec<u8>,
    pub recipient_users: Vec<String>,
    pub from: String,
}

/// A received message as bytes.
pub struct ReceivedView {
    pub raw_message: Seq<u8>,
    pub recipient_users: Seq<Seq<u8>>,
    pub from: Seq<u8>,
}

impl View for ReceivedMessage {
    type V = ReceivedView;

    open spec fn view(&self) -> ReceivedView {
        ReceivedView {
            raw_message: self.raw_message@,
            recipient_users: crate::smtp::bytes::texts(self.recipient_users@),
            from: encode_utf8(self.from@),
        }
    }
}

/// Why a bundle is dropped.
#[derive(Debug, Clone, Copy, PartialEq, Eq, Structural)]
pub enum DroppedBundle {
    /// The bundle holds no message.
    InvalidMessage,
    /// The message names no sender.
    MissingFrom,
}

/// The user that `address` names on the node `domain`: what stands before its
/// first `@`, where what follows that `@` is `domain`.
pub open spec fn local_user(address: Seq<u8>, domain: Seq<u8>) -> Option<Seq<u8>> {
    let at = find(address, AT);
    if at < address.len() && address.skip(at + 1) == domain {
        Some(address.take(at))
    } else {
        None
    }
}

/// The users that the entries of a `To` field name on the node `domain`, in
/// the order of the entries.
pub open spec fn local_users(to: Seq<Option<Seq<u8>>>, domain: Seq<u8>) -> Seq<Seq<u8>>
    decreases to.len(),
{
    if to.len() == 0 {
        Seq::empty()
    } else {
        let before = local_users(to.drop_last(), domain);
        match to.last() {
            Some(address) => match local_user(address, domain) {
                Some(user) => before.push(user),
                None => before,
            },
            None => before,
        }
    }
}

/// The sender that a `From` field names: the address of its first entry.
pub open spec fn sender(from: Seq<Option<Seq<u8>>>) -> Option<Seq<u8>> {
    if from.len() > 0 {
        from[0]
    } else {
        None
    }
}

/// The message that a bundle and the header read from it make for the node
/// `domain`.
pub open spec fn assemble(raw: Seq<u8>, header: Option<HeaderView>, domain: Seq<u8>) -> Result<
    ReceivedView,
    DroppedBundle,
> {
    match header {
        None => Err(DroppedBundle::InvalidMessage),
        Some(h) => match sender(h.from) {
            None => Err(DroppedBundle::MissingFrom),
            Some(from) => Ok(
                ReceivedView { raw_message: raw, recipient_users: local_users(h.to, domain), from },
            ),
        },
    }
}

/// What assembling a message gives, as bytes.
pub open spec fn assembled_view(r: Result<ReceivedMessage, DroppedBundle>) -> Result<
    ReceivedView,
    DroppedBundle,
> {
    match r {
        Ok(message) => Ok(message@),
        Err(e) => Err(e),
    }
}

/// The user of `address` on the node `domain`, if it names one there.
pub fn user_on(address: &str, domain: &str) -> (user: Option<String>)
    ensures
        crate::smtp::bytes::optional_text(user) == local_user(
            address.spec_bytes(),
            domain.spec_bytes(),
        ),
{
    let bytes = address.as_bytes();
    let at = find_byte(bytes, AT);
    proof {
        lemma_find(bytes@, AT);
    }
    if at >= bytes.len() {
        return None;
    }
    let host = slice_subrange(bytes, at + 1, bytes.len());
    if !same_bytes(host, domain.as_bytes()) {
        return None;
    }
    proof {
        encode_utf8_valid_utf8(address@);
        is_char_boundary_iff_not_is_continuation_byte(bytes@, at as int);
    }
    let (user, _) = address.split_at(at);
    Some(user.to_owned())
}

impl ReceivedMessage {
    /// Makes the message to deliver from a bundle and the addresses of its
    /// header. The sender is the first address of `From`; the recipients are
    /// the users that `To` names on `recipient_domain`.
    pub fn from_header(
        bundle: Vec<u8>,
        header: Option<HeaderAddresses>,
        recipient_domain: &str,
    ) -> (r: Result<Self, DroppedBundle>)
        ensures
            assembled_view(r) == assemble(
                bundle@,
                header_view(header),
                recipient_domain.spec_bytes(),
            ),
    {
        let Some(header) = header else {
            return Err(DroppedBundle::InvalidMessage);
        };
        let HeaderAddresses { mut from, to } = header;
        if from.len() == 0 {
            return Err(DroppedBundle::MissingFrom);
        }
        let Some(sender) = from.swap_remove(0) else {
            return Err(DroppedBundle::MissingFrom);
        };
        let ghost domain = recipient_domain.spec_bytes();
        let mut users: Vec<String> = Vec::new();
        let mut i: usize = 0;
        while i < to.len()
            invariant
                i <= to@.len(),
                domain == recipient_domain.spec_bytes(),
                crate::smtp::bytes::texts(users@) == local_users(entries(to@).take(i as int), domain),
            decreases to@.len() - i,
        {
            let ghost before = crate::smtp::bytes::texts(users@);
            assert(entries(to@).take(i + 1).drop_last() =~= entries(to@).take(i as int));
            if let Some(address) = &to[i] {
                if let Some(user) = user_on(address.as_str(), recipient_domain) {
                    users.push(user);
                    assert(crate::smtp::bytes::texts(users@) =~= before.push(encode_utf8(user@)));
                }
            }
            i += 1;
        }
        assert(entries(to@).take(to@.len() as int) =~= entries(to@));
        Ok(ReceivedMessage { raw_message: bundle, recipient_users: users, from: sender })
    }

    /// Makes the message to deliver from a bundle, reading its header.
    pub fn from_bundle(bundle: Vec<u8>, recipient_domain: &str) -> (r: Result<Self, DroppedBundle>)
        ensures
            assembled_view(r) == assemble(
                bundle@,
                parsed_header(bundle@),
                recipient_domain.spec_bytes(),
            ),
    {
        let header = read_header(bundle.as_slice());
        Self::from_header(bundle, header, recipient_domain)
    }

    /// Whether the message is for anyone on this node. A message for no one
    /// here is not delivered.
    pub fn has_local_recipient(&self) -> (r: bool)
        ensures
            r == (self@.recipient_users.len() > 0),
    {
        self.recipient_users.len() > 0
    }
}

/// The name of a node inside its endpoint identifier can be cut out: the
/// identifier is long enough, and the cuts fall between characters.
pub open spec fn names_node(eid: Seq<u8>) -> bool {
    eid.len() >= 7 && is_char_boundary(eid, 6) && is_char_boundary(eid, eid.len() - 1)
}

/// The domain of the node whose endpoint identifier is `node_eid`: the
/// identifier without its scheme, `dtn://`, and without its last character,
/// the `/` that closes it.
pub fn node_domain(node_eid: &str) -> (domain: Option<&str>)
    ensures
        match domain {
            Some(d) => names_node(node_eid.spec_bytes()) && d.spec_bytes()
                == node_eid.spec_bytes().subrange(6, node_eid.spec_bytes().len() - 1),
            None => !names_node(node_eid.spec_bytes()),
        },
{
    let n = node_eid.as_bytes().len();
    if n < 7 || !node_eid.is_char_boundary(6) || !node_eid.is_char_boundary(n - 1) {
        return None;
    }
    let (_, tail) = node_eid.split_at(6);
    proof {
        encode_utf8_valid_utf8(node_eid@);
        encode_utf8_valid_utf8(tail@);
    }
    assert(tail.spec_bytes() =~= node_eid.spec_bytes().subrange(6, n as int));
    assert(is_char_boundary(tail.spec_bytes(), n - 7)) by {
        if n > 7 {
            is_char_boundary_iff_not_is_continuation_byte(node_eid.spec_bytes(), n - 1);
            is_char_boundary_iff_not_is_continuation_byte(tail.spec_bytes(), n - 7);
        }
    }
    let (domain, _) = tail.split_at(n - 7);
    assert(domain.spec_bytes() =~= node_eid.spec_bytes().subrange(6, n - 1));
    Some(domain)
}

} // verus!
