use dtn_mail::smtp_server::{server_domain, SmtpConfig};

#[test]
fn server_listens_on_the_local_port_2525_unless_told_otherwise() {
    assert_eq!(SmtpConfig::default().bind, "127.0.0.1:2525");
}

#[test]
fn config_holds_the_address_it_was_given() {
    let config = SmtpConfig { bind: "0.0.0.0:25".to_owned() };
    assert_eq!(config.bind, "0.0.0.0:25");
}

#[test]
fn server_presents_itself_as_ddelivery() {
    assert_eq!(server_domain(), "ddelivery");
}
