use vstd::prelude::*;
use crate::types::{MailboxDatum, Response, StatusAttribute, StatusItem, UnsolicitedResponse};

verus! {

/// A record that the server may send at any time (a status push, a message
/// count, a recent count or an expunge), whatever command is running.
pub open spec fn is_unilateral(r: Response) -> bool {
    match r {
        Response::MailboxData(MailboxDatum::Status { .. }) => true,
        Response::MailboxData(MailboxDatum::Recent(_)) => true,
        Response::MailboxData(MailboxDatum::Exists(_)) => true,
        Response::Expunge(_) => true,
        _ => false,
    }
}

/// The status attributes that a status item contributes to a push.
pub open spec fn decoded_item(i: StatusItem) -> Seq<StatusAttribute> {
    match i {
        StatusItem::Messages(n) => seq![StatusAttribute::Messages(n)],
        StatusItem::UidNext(n) => seq![StatusAttribute::UidNext(n)],
        StatusItem::UidValidity(n) => seq![StatusAttribute::UidValidity(n)],
        StatusItem::Unseen(n) => seq![StatusAttribute::Unseen(n)],
        _ => seq![],
    }
}

/// The status items of the closed attribute set, in order, others dropped.
pub open spec fn decoded_items(s: Seq<StatusItem>) -> Seq<StatusAttribute>
    decreases s.len(),
{
    if s.len() == 0 {
        seq![]
    } else {
        decoded_items(s.drop_last()) + decoded_item(s.last())
    }
}

/// `e` is the push that reports the unilateral record `r`.
pub open spec fn event_of(r: Response, e: UnsolicitedResponse) -> bool {
    match r {
        Response::MailboxData(MailboxDatum::Status { mailbox, status }) => match e {
            UnsolicitedResponse::Status { mailbox: m, attributes } => m == mailbox
                && attributes@ == decoded_items(status@),
            _ => false,
        },
        Response::MailboxData(MailboxDatum::Recent(n)) => e == UnsolicitedResponse::Recent(n),
        Response::MailboxData(MailboxDatum::Exists(n)) => e == UnsolicitedResponse::Exists(n),
        Response::Expunge(n) => e == UnsolicitedResponse::Expunge(n),
        _ => false,
    }
}

/// `es` reports the records `rs`, one push per record, in the same order.
pub open spec fn events_of(rs: Seq<Response>, es: Seq<UnsolicitedResponse>) -> bool {
    &&& rs.len() == es.len()
    &&& forall|i: int| 0 <= i < rs.len() ==> #[trigger] event_of(rs[i], es[i])
}

pub proof fn lemma_events_push(
    rs: Seq<Response>,
    es: Seq<UnsolicitedResponse>,
    r: Response,
    e: UnsolicitedResponse,
)
    requires
        events_of(rs, es),
        event_of(r, e),
    ensures
        events_of(rs.push(r), es.push(e)),
{
    assert forall|i: int| 0 <= i < rs.len() + 1 implies #[trigger] event_of(
        rs.push(r)[i],
        es.push(e)[i],
    ) by {
        if i < rs.len() {
            assert(event_of(rs[i], es[i]));
        }
    }
}

/// Keeps the status items of the closed attribute set, in order.
pub fn decode_status(items: &Vec<StatusItem>) -> (r: Vec<StatusAttribute>)
    ensures
        r@ == decoded_items(items@),
{
    let mut out: Vec<StatusAttribute> = Vec::new();
    let mut i: usize = 0;
    while i < items.len()
        invariant
            i <= items.len(),
            out@ == decoded_items(items@.take(i as int)),
        decreases items.len() - i,
    {
        match items[i] {
            StatusItem::Messages(n) => out.push(StatusAttribute::Messages(n)),
            StatusItem::UidNext(n) => out.push(StatusAttribute::UidNext(n)),
            StatusItem::UidValidity(n) => out.push(StatusAttribute::UidValidity(n)),
            StatusItem::Unseen(n) => out.push(StatusAttribute::Unseen(n)),
            _ => {},
        }
        proof {
            assert(items@.take(i + 1).drop_last() =~= items@.take(i as int));
        }
        i += 1;
    }
    proof {
        assert(items@.take(items.len() as int) =~= items@);
    }
    out
}

/// Turns a unilateral record into the push that reports it; hands any other
/// record back unchanged.
pub fn handle_unilateral(r: Response) -> (out: Result<UnsolicitedResponse, Response>)
    ensures
        is_unilateral(r) ==> out is Ok && event_of(r, out->Ok_0),
        !is_unilateral(r) ==> out == Err::<UnsolicitedResponse, Response>(r),
{
    match r {
        Response::MailboxData(MailboxDatum::Status { mailbox, status }) => {
            let attributes = decode_status(&status);
            Ok(UnsolicitedResponse::Status { mailbox, attributes })
        },
        Response::MailboxData(MailboxDatum::Recent(n)) => Ok(UnsolicitedResponse::Recent(n)),
        Response::MailboxData(MailboxDatum::Exists(n)) => Ok(UnsolicitedResponse::Exists(n)),
        Response::Expunge(n) => Ok(UnsolicitedResponse::Expunge(n)),
        other => Err(other),
    }
}

} // verus!
