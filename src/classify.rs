use vstd::prelude::*;
use crate::model::{fault, forwarded, Command};
use crate::types::{MailboxDatum, Response, Status};

verus! {

/// Whether command `k` asked for the record `r`.
pub fn is_own_data(k: Command, r: &Response) -> (b: bool)
    ensures
        b == crate::model::own_data(k, *r),
{
    match k {
        Command::Capabilities => matches!(r, Response::Capabilities(_)),
        Command::Ids => matches!(r, Response::IDs(_)),
        Command::Noop => false,
        Command::Names => matches!(r, Response::MailboxData(MailboxDatum::List { .. })),
        Command::Fetches => matches!(r, Response::Fetch(..)),
        Command::Expunge => matches!(r, Response::Expunge(_)),
        Command::Select => match r {
            Response::Data { status, .. } => matches!(status, Status::Okay),
            Response::MailboxData(MailboxDatum::Exists(_)) => true,
            Response::MailboxData(MailboxDatum::Recent(_)) => true,
            Response::MailboxData(MailboxDatum::Flags(_)) => true,
            _ => false,
        },
    }
}

/// Whether the record `r` goes to the sink while command `k` runs.
pub fn is_forwarded(k: Command, r: &Response) -> (b: bool)
    ensures
        b == forwarded(k, *r),
{
    let unilateral = match r {
        Response::MailboxData(MailboxDatum::Status { .. }) => true,
        Response::MailboxData(MailboxDatum::Recent(_)) => true,
        Response::MailboxData(MailboxDatum::Exists(_)) => true,
        Response::Expunge(_) => true,
        _ => false,
    };
    match k {
        Command::Select => matches!(r, Response::MailboxData(MailboxDatum::Status { .. }))
            || matches!(r, Response::Expunge(_)),
        _ => !is_own_data(k, r) && unilateral,
    }
}

/// Whether the record `r` is neither data of command `k` nor a push.
pub fn is_fault(k: Command, r: &Response) -> (b: bool)
    ensures
        b == fault(k, *r),
{
    !is_own_data(k, r) && !is_forwarded(k, r)
}

} // verus!
