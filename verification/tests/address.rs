use dtn_mail::smtp::{BadAddressError, EmailAddress};

#[test]
fn address_keeps_its_brackets() {
    let address = EmailAddress::from_bytes(b"<a@b>".to_vec()).unwrap();
    assert_eq!(address.as_str(), "<a@b>");
    assert_eq!(&*address, "<a@b>");
}

#[test]
fn address_shape_holds_of_accepted_addresses() {
    for text in ["<a@b>", "<local@example.org>", "<@>", "<a@b@c>", "<x y@z>"] {
        let address = EmailAddress::from_bytes(text.as_bytes().to_vec()).unwrap();
        let form = address.as_str();
        assert!(form.starts_with('<'));
        assert!(form.ends_with('>'));
        let at = form.find('@').unwrap();
        assert_eq!(address.domain(), &form[at + 1..form.len() - 1]);
    }
}

#[test]
fn domain_is_what_follows_the_at() {
    let address = EmailAddress::from_bytes(b"<user@example.org>".to_vec()).unwrap();
    assert_eq!(address.domain(), "example.org");
}

#[test]
fn domain_starts_after_the_first_at() {
    let address = EmailAddress::from_bytes(b"<a@b@c>".to_vec()).unwrap();
    assert_eq!(address.domain(), "b@c");
}

#[test]
fn domain_may_be_empty() {
    let address = EmailAddress::from_bytes(b"<@>".to_vec()).unwrap();
    assert_eq!(address.domain(), "");
}

#[test]
fn domain_keeps_text_outside_ascii() {
    let address = EmailAddress::from_bytes("<é@ü.example>".as_bytes().to_vec()).unwrap();
    assert_eq!(address.domain(), "ü.example");
}

#[test]
fn address_without_brackets_is_refused() {
    for text in ["a@b", "<a@b", "a@b>", "", "<", ">"] {
        assert!(
            matches!(
                EmailAddress::from_bytes(text.as_bytes().to_vec()),
                Err(BadAddressError::BadFrame)
            ),
            "{text}"
        );
    }
}

#[test]
fn address_without_at_is_refused() {
    for text in ["<>", "<ab>"] {
        assert!(matches!(
            EmailAddress::from_bytes(text.as_bytes().to_vec()),
            Err(BadAddressError::AtMissing)
        ));
    }
}

#[test]
fn address_that_is_no_utf8_is_refused() {
    let result = EmailAddress::from_bytes(vec![b'<', 0xff, b'@', b'b', b'>']);
    assert!(matches!(result, Err(BadAddressError::InvalidUtf8String(_))));
}

#[test]
fn frame_is_checked_before_the_at_and_the_at_before_the_text() {
    assert!(matches!(EmailAddress::from_bytes(vec![0xff]), Err(BadAddressError::BadFrame)));
    assert!(matches!(
        EmailAddress::from_bytes(vec![b'<', 0xff, b'>']),
        Err(BadAddressError::AtMissing)
    ));
}

#[test]
fn utf8_error_converts_to_address_error() {
    let error = String::from_utf8(vec![0xff]).unwrap_err();
    assert!(matches!(BadAddressError::from(error), BadAddressError::InvalidUtf8String(_)));
}
