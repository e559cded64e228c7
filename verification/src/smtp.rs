//! The server side of the SMTP dialog.

pub mod address;
pub mod bytes;
pub mod command;
pub mod engine;
pub mod framer;
pub mod laws;
pub mod mail;
pub mod response;
pub mod session;
pub mod transparency;

pub use address::{BadAddressError, EmailAddress};
pub use command::{ClientCommand, ClientCommandParseError};
pub use engine::{Progress, Session};
pub use framer::CommandIter;
pub use mail::Mail;
pub use response::ServerCommand;
pub use session::{MailReceiver, Outcome, SessionState, SmtpError};
