//! How the SMTP server is set up.

use vstd::prelude::*;
use vstd::string::*;

verus! {

/// The settings of the SMTP server.
#[derive(Debug)]
pub struct SmtpConfig {
    /// The address to listen on, as `host:port`.
    pub bind: String,
}

impl Default for SmtpConfig {
    /// The server listens on port 2525 of the local host.
    fn default() -> (config: Self)
        ensures
            config.bind@ == "127.0.0.1:2525"@,
    {
        SmtpConfig { bind: "127.0.0.1:2525".to_owned() }
    }
}

/// The domain under which the server presents itself.
pub fn server_domain() -> (domain: String)
    ensures
        domain@ == "ddelivery"@,
{
    "ddelivery".to_owned()
}

} // verus!
