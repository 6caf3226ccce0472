//! Classification of IMAP server responses for one outstanding command:
//! finding where the command's response ends, collecting what the command
//! asked for, and setting aside the server pushes that arrive in between.

pub mod aggregate;
pub mod auth;
pub mod capabilities;
pub mod classify;
pub mod items;
pub mod laws;
pub mod mailbox;
pub mod model;
pub mod stream;
pub mod types;
pub mod unilateral;

pub use aggregate::{
    capabilities_step, ids_step, noop_step, parse_capabilities, parse_ids, parse_noop,
};
pub use auth::parse_authenticate_response;
pub use capabilities::Capabilities;
pub use items::{
    expunge_step, fetch_step, name_step, parse_expunge, parse_fetches, parse_names, Step,
};
pub use mailbox::{mailbox_step, parse_mailbox, Mailbox};
pub use model::{Command, Outcome};
pub use types::{
    AttributeValue, Capability, Error, Fetch, MailboxDatum, Name, Response, ResponseCode, Status,
    StatusAttribute, StatusItem, UnsolicitedResponse,
};
pub use unilateral::handle_unilateral;
