//! Where the bundles of a message go.

use crate::smtp::address::{mailbox_domain, EmailAddress};
use crate::smtp::bytes::{lemma_joined_bytes, texts};
use crate::smtp::mail::Mail;
use vstd::prelude::*;
use vstd::string::*;
use vstd::utf8::*;

verus! {

/// What the task that submits bundles is told.
#[derive(Debug)]
pub enum SenderMsg {
    SendMail(Mail),
    ShutdownTask,
}

/// The endpoint identifier of the agent `agent` on the node `domain`.
pub open spec fn endpoint(domain: Seq<u8>, agent: Seq<u8>) -> Seq<u8> {
    "dtn://".spec_bytes() + domain + "/".spec_bytes() + agent
}

/// The endpoint of each recipient's node, in the order of the recipients.
pub open spec fn endpoints(recipients: Seq<Seq<u8>>, agent: Seq<u8>) -> Seq<Seq<u8>> {
    Seq::new(recipients.len(), |i: int| endpoint(mailbox_domain(recipients[i]), agent))
}

/// The endpoint to which the bundle for `recipient` is sent.
pub fn bundle_destination(recipient: &EmailAddress, agent_id: &str) -> (eid: String)
    ensures
        encode_utf8(eid@) == endpoint(mailbox_domain(recipient@), agent_id.spec_bytes()),
{
    let domain = recipient.domain();
    let mut eid = "dtn://".to_owned();
    eid.append(domain);
    eid.append("/");
    eid.append(agent_id);
    proof {
        lemma_joined_bytes("dtn://"@, domain@);
        lemma_joined_bytes("dtn://"@ + domain@, "/"@);
        lemma_joined_bytes("dtn://"@ + domain@ + "/"@, agent_id@);
    }
    eid
}

/// The endpoints to which the bundles of `mail` are sent: one for each
/// recipient, in order, a recipient named twice getting two.
pub fn destinations(mail: &Mail, agent_id: &str) -> (eids: Vec<String>)
    ensures
        texts(eids@) == endpoints(mail@.receipients, agent_id.spec_bytes()),
{
    let mut eids: Vec<String> = Vec::new();
    let mut i: usize = 0;
    while i < mail.receipients.len()
        invariant
            i <= mail.receipients@.len(),
            eids@.len() == i,
            forall|k: int|
                0 <= k < i ==> encode_utf8(#[trigger] eids@[k]@) == endpoint(
                    mailbox_domain(mail.receipients@[k]@),
                    agent_id.spec_bytes(),
                ),
        decreases mail.receipients@.len() - i,
    {
        eids.push(bundle_destination(&mail.receipients[i], agent_id));
        i += 1;
    }
    assert(texts(eids@) =~= endpoints(mail@.receipients, agent_id.spec_bytes()));
    eids
}

} // verus!
