//! An SMTP-to-DTN mail gateway: the SMTP session engine and the rules that
//! carry a message across the DTN layer, with their proofs.

pub mod mail_receiver;
pub mod mail_sender;
pub mod smtp;
pub mod smtp_server;
