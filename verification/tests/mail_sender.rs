use dtn_mail::mail_sender::{bundle_destination, destinations, SenderMsg};
use dtn_mail::smtp::{EmailAddress, Mail};

fn address(text: &str) -> EmailAddress {
    EmailAddress::from_bytes(text.as_bytes().to_vec()).unwrap()
}

#[test]
fn destination_names_the_recipient_node_and_the_agent() {
    assert_eq!(bundle_destination(&address("<c@d>"), "mail/inbox"), "dtn://d/mail/inbox");
    assert_eq!(
        bundle_destination(&address("<user@mars.example>"), "mail/inbox"),
        "dtn://mars.example/mail/inbox"
    );
}

#[test]
fn destination_of_an_empty_domain() {
    assert_eq!(bundle_destination(&address("<a@>"), "x"), "dtn:///x");
}

#[test]
fn new_mail_has_no_recipient_and_no_content() {
    let mail = Mail::new(address("<a@b>"));
    assert_eq!(mail.from.as_str(), "<a@b>");
    assert!(mail.receipients.is_empty());
    assert!(mail.content.is_empty());
    assert!(destinations(&mail, "mail/inbox").is_empty());
}

#[test]
fn one_destination_for_each_recipient_in_order() {
    let mut mail = Mail::new(address("<a@b>"));
    for to in ["<c@d>", "<e@f>", "<g@d>", "<c@d>"] {
        mail.receipients.push(address(to));
    }
    assert_eq!(
        destinations(&mail, "mail/inbox"),
        ["dtn://d/mail/inbox", "dtn://f/mail/inbox", "dtn://d/mail/inbox", "dtn://d/mail/inbox"]
    );
}

#[test]
fn sender_message_carries_a_mail_or_the_order_to_stop() {
    let message = SenderMsg::SendMail(Mail::new(address("<a@b>")));
    assert!(matches!(message, SenderMsg::SendMail(m) if m.from.as_str() == "<a@b>"));
    assert!(matches!(SenderMsg::ShutdownTask, SenderMsg::ShutdownTask));
}
