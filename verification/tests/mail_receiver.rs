use dtn_mail::mail_receiver::{
    node_domain, user_on, DroppedBundle, HeaderAddresses, ReceivedMessage,
};

fn some(text: &str) -> Option<String> {
    Some(text.to_owned())
}

#[test]
fn user_is_what_stands_before_the_at() {
    assert_eq!(user_on("alice@mars", "mars"), some("alice"));
    assert_eq!(user_on("@mars", "mars"), some(""));
    assert_eq!(user_on("zoë@mars", "mars"), some("zoë"));
}

#[test]
fn user_of_another_node_is_none() {
    assert_eq!(user_on("alice@venus", "mars"), None);
    assert_eq!(user_on("alice@mars.example", "mars"), None);
    assert_eq!(user_on("alice@MARS", "mars"), None);
    assert_eq!(user_on("alice@", "mars"), None);
}

#[test]
fn address_without_at_names_no_user() {
    assert_eq!(user_on("alice", "mars"), None);
    assert_eq!(user_on("", ""), None);
}

#[test]
fn address_is_cut_at_its_first_at() {
    assert_eq!(user_on("a@b@mars", "b@mars"), some("a"));
    assert_eq!(user_on("a@b@mars", "mars"), None);
}

#[test]
fn message_is_made_from_the_header() {
    let header = HeaderAddresses {
        from: vec![some("bob@earth"), some("eve@earth")],
        to: vec![some("alice@mars"), None, some("carol@venus"), some("nobody"), some("dave@mars")],
    };
    let message = ReceivedMessage::from_header(b"raw".to_vec(), Some(header), "mars").unwrap();
    assert_eq!(message.from, "bob@earth");
    assert_eq!(message.recipient_users, ["alice", "dave"]);
    assert_eq!(message.raw_message, b"raw");
    assert!(message.has_local_recipient());
}

#[test]
fn message_for_no_one_here_has_no_local_recipient() {
    let header = HeaderAddresses { from: vec![some("bob@earth")], to: vec![some("carol@venus")] };
    let message = ReceivedMessage::from_header(Vec::new(), Some(header), "mars").unwrap();
    assert!(message.recipient_users.is_empty());
    assert!(!message.has_local_recipient());
}

#[test]
fn bundle_without_header_is_dropped() {
    assert_eq!(
        ReceivedMessage::from_header(b"x".to_vec(), None, "mars").unwrap_err(),
        DroppedBundle::InvalidMessage
    );
}

#[test]
fn message_without_sender_is_dropped() {
    let no_entry = HeaderAddresses { from: vec![], to: vec![some("alice@mars")] };
    assert_eq!(
        ReceivedMessage::from_header(Vec::new(), Some(no_entry), "mars").unwrap_err(),
        DroppedBundle::MissingFrom
    );
    let no_address = HeaderAddresses { from: vec![None, some("bob@earth")], to: vec![] };
    assert_eq!(
        ReceivedMessage::from_header(Vec::new(), Some(no_address), "mars").unwrap_err(),
        DroppedBundle::MissingFrom
    );
}

#[test]
fn bundle_is_read_with_the_mail_parser() {
    let bundle = b"From: Bob <bob@earth>\r\nTo: alice@mars, Carol <carol@venus>, dave@mars\r\nSubject: hi\r\n\r\nbody\r\n";
    let message = ReceivedMessage::from_bundle(bundle.to_vec(), "mars").unwrap();
    assert_eq!(message.from, "bob@earth");
    assert_eq!(message.recipient_users, ["alice", "dave"]);
    assert_eq!(message.raw_message, bundle);
}

#[test]
fn bundle_with_a_group_of_recipients() {
    let bundle = b"From: bob@earth\r\nTo: crew: alice@mars, erin@mars;\r\n\r\nbody\r\n";
    let message = ReceivedMessage::from_bundle(bundle.to_vec(), "mars").unwrap();
    assert_eq!(message.recipient_users, ["alice", "erin"]);
}

#[test]
fn bundle_without_from_is_dropped() {
    let bundle = b"To: alice@mars\r\nSubject: hi\r\n\r\nbody\r\n";
    assert_eq!(
        ReceivedMessage::from_bundle(bundle.to_vec(), "mars").unwrap_err(),
        DroppedBundle::MissingFrom
    );
}

#[test]
fn empty_bundle_is_dropped() {
    assert_eq!(
        ReceivedMessage::from_bundle(Vec::new(), "mars").unwrap_err(),
        DroppedBundle::InvalidMessage
    );
}

#[test]
fn node_domain_is_the_eid_without_scheme_and_slash() {
    assert_eq!(node_domain("dtn://mars/"), Some("mars"));
    assert_eq!(node_domain("dtn://mars.example/"), Some("mars.example"));
    assert_eq!(node_domain("dtn:///"), Some(""));
    assert_eq!(node_domain("dtn://é/"), Some("é"));
}

#[test]
fn node_domain_of_a_short_eid_is_none() {
    assert_eq!(node_domain(""), None);
    assert_eq!(node_domain("dtn://"), None);
}

#[test]
fn node_domain_is_none_where_a_cut_splits_a_character() {
    assert_eq!(node_domain("dtn:/éx/"), None);
    assert_eq!(node_domain("dtn://marsé"), None);
}
