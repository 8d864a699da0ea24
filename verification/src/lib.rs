//! The mailbox state of an IMAP server that keeps its messages in an
//! object store.
//!
//! The store knows which messages lie in a mailbox and under which uid.
//! IMAP wants more: a view of the mailbox in which the messages are numbered
//! from 1 in the order of their uids, which each session keeps for itself and
//! which changes only when the client is told so. This crate builds such
//! views ([`message`]), brings a session's view up to date in two steps,
//! first staging the changes and then announcing them ([`synchronize`]),
//! resolves the sequence sets of commands against a view ([`resolve`],
//! [`sequence`]), takes in the messages that a session has added itself
//! ([`append`]) and renders the `EXPUNGE`, `VANISHED` and `EXISTS` responses
//! ([`protocol`]). It also decides how the adapter to the key-value store
//! reads values in chunks, bitmaps and counters ([`store`]).
//!
//! Nothing here reads from a store or writes to a client: the caller reads,
//! hands in what was read, and sends what is handed back. Every function is
//! verified against its contract. The contracts speak of mathematical views
//! of the data ([`mailbox::MailboxSnapshot`]); what holds of these views
//! across calls is proved in [`laws`]. The only code that is taken on trust
//! is the small set of wrappers in [`collections`].

pub mod append;
pub mod cache;
pub mod collections;
pub mod error;
pub mod laws;
pub mod mailbox;
pub mod message;
pub mod protocol;
pub mod resolve;
pub mod sequence;
pub mod store;
pub mod synchronize;
