//! The message that a transaction assembles.

use super::address::EmailAddress;
use vstd::prelude::*;

verus! {

/// One message: the envelope that the client gave and the payload it sent.
#[derive(Debug)]
pub struct Mail {
    pub from: EmailAddress,
    pub receipients: Vec<EmailAddress>,
    pub content: Vec<u8>,
}

/// A message as bytes.
pub struct MailView {
    pub from: Seq<u8>,
    pub receipients: Seq<Seq<u8>>,
    pub content: Seq<u8>,
}

/// The textual form of each address of a list.
pub open spec fn addresses(list: Seq<EmailAddress>) -> Seq<Seq<u8>> {
    Seq::new(list.len(), |i: int| list[i]@)
}

impl View for Mail {
    type V = MailView;

    open spec fn view(&self) -> MailView {
        MailView {
            from: self.from@,
            receipients: addresses(self.receipients@),
            content: self.content@,
        }
    }
}

impl Mail {
    /// A message from `from_address`, with no recipient and no content yet.
    pub fn new(from_address: EmailAddress) -> (mail: Self)
        ensures
            mail@ == (MailView {
                from: from_address@,
                receipients: Seq::empty(),
                content: Seq::empty(),
            }),
    {
        let mail = Self { from: from_address, receipients: Vec::new(), content: Vec::new() };
        assert(mail@.receipients =~= Seq::empty());
        mail
    }
}

} // verus!
