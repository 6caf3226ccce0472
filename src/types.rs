use vstd::prelude::*;

verus! {

/// Status of a tagged completion or an untagged status line.
#[derive(Debug, Clone, Copy, PartialEq, Eq, Structural)]
pub enum Status {
    Okay,
    No,
    Bad,
    PreAuth,
    Bye,
}

/// One item of a `STATUS` data record, as the server wrote it.
#[derive(Debug, Clone, Copy, PartialEq, Eq, Structural)]
pub enum StatusItem {
    HighestModSeq(u64),
    Messages(u32),
    Recent(u32),
    UidNext(u32),
    UidValidity(u32),
    Unseen(u32),
}

/// The closed set of status attributes handed on in a status push.
#[derive(Debug, Clone, Copy, PartialEq, Eq, Structural)]
pub enum StatusAttribute {
    Messages(u32),
    UidNext(u32),
    UidValidity(u32),
    Unseen(u32),
}

/// Response code of an untagged status line (the part in brackets).
#[derive(Debug, PartialEq, Eq)]
pub enum ResponseCode {
    UidNext(u32),
    UidValidity(u32),
    Unseen(u32),
    PermanentFlags(Vec<String>),
    Other,
}

/// A server capability, as the grammar distinguishes it.
#[derive(Debug, PartialEq, Eq)]
pub enum Capability {
    Imap4rev1,
    Auth(String),
    Atom(String),
}

/// One attribute of a message data (`FETCH`) record.
#[derive(Debug, PartialEq, Eq)]
pub enum AttributeValue {
    Flags(Vec<String>),
    Uid(u32),
    Rfc822Size(u32),
    Rfc822(Option<Vec<u8>>),
    Rfc822Header(Option<Vec<u8>>),
    Other,
}

/// Mailbox data records.
#[derive(Debug, PartialEq, Eq)]
pub enum MailboxDatum {
    Exists(u32),
    Recent(u32),
    Flags(Vec<String>),
    List { flags: Vec<String>, delimiter: Option<String>, name: String },
    Status { mailbox: String, status: Vec<StatusItem> },
    Other,
}

/// The parsed form of one server response record.
#[derive(Debug, PartialEq, Eq)]
pub enum Response {
    /// The tagged completion that ends a command's responses.
    Done { tag: String, status: Status },
    Continue,
    Data { status: Status, code: Option<ResponseCode> },
    Capabilities(Vec<Capability>),
    Expunge(u32),
    Fetch(u32, Vec<AttributeValue>),
    MailboxData(MailboxDatum),
    IDs(Vec<u32>),
}

/// A server push that is not part of the running command's result.
#[derive(Debug, PartialEq, Eq)]
pub enum UnsolicitedResponse {
    Status { mailbox: String, attributes: Vec<StatusAttribute> },
    Recent(u32),
    Exists(u32),
    Expunge(u32),
}

#[derive(Debug, PartialEq, Eq)]
pub enum Error {
    /// A record that is neither the command's own data nor a server push.
    Unexpected(Response),
    /// A line that is not a continuation request; holds the line.
    Authentication(String),
    /// An untagged status line inside a mailbox selection whose status is not `OK`.
    ProtocolViolation(Response),
}

} // verus!

verus! {

/// One entry of a mailbox listing.
#[derive(Debug, PartialEq, Eq)]
pub struct Name {
    pub attributes: Vec<String>,
    pub delimiter: Option<String>,
    pub name: String,
}

/// One message of a `FETCH` response.
#[derive(Debug, PartialEq, Eq)]
pub struct Fetch {
    /// The message sequence number.
    pub message: u32,
    /// The flags of every `FLAGS` attribute, in order.
    pub flags: Vec<String>,
    /// The last `UID` attribute, if any.
    pub uid: Option<u32>,
    /// The last `RFC822.SIZE` attribute, if any.
    pub size: Option<u32>,
    /// Every attribute, as the server sent it.
    pub fetch: Vec<AttributeValue>,
}

} // verus!
