//! Messaging core of a small peer-to-peer group chat.
//!
//! Peers meet through a ticket, a text token that names a topic and the
//! addresses of peers already in it, and then exchange announcements and chat
//! lines over a gossip layer. This crate holds the identity model, the ticket
//! and message codecs, the presence directory and the decisions of the inbound
//! and outbound flows; transport and console stay with the caller.

pub mod ascii;
pub mod base32;
pub mod flow;
pub mod identity;
pub mod message;
pub mod presence;
pub mod ticket;
pub mod wire;
