//! Mailbox ledger and store-and-forward routing for a federated mail node.
//!
//! The ledger holds the node's local mailboxes (inboxes, trash, sent sets,
//! read status, reply threads and newsletters); the routing sessions decide,
//! message by message, how each recipient domain is reached: straight into
//! the local ledger, through a remote node, or through the external gateway.

pub mod external;
pub mod keymap;
pub mod ledger;
pub mod node;
pub mod registry;
pub mod routing;
pub mod session;
pub mod types;
