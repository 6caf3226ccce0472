use vstd::prelude::*;
use crate::stream::no_completion;
use crate::types::{Error, MailboxDatum, Response, Status, UnsolicitedResponse};
use crate::unilateral::{event_of, is_unilateral};

verus! {

/// The command families whose responses are told apart here.
#[derive(Debug, Clone, Copy, PartialEq, Eq, Structural)]
pub enum Command {
    Capabilities,
    Ids,
    Noop,
    Names,
    Fetches,
    Expunge,
    Select,
}

/// `r` is data that command `k` asked for.
pub open spec fn own_data(k: Command, r: Response) -> bool {
    match k {
        Command::Capabilities => r is Capabilities,
        Command::Ids => r is IDs,
        Command::Noop => false,
        Command::Names => r matches Response::MailboxData(MailboxDatum::List { .. }),
        Command::Fetches => r is Fetch,
        Command::Expunge => r is Expunge,
        Command::Select => match r {
            Response::Data { status, .. } => status == Status::Okay,
            Response::MailboxData(MailboxDatum::Exists(_)) => true,
            Response::MailboxData(MailboxDatum::Recent(_)) => true,
            Response::MailboxData(MailboxDatum::Flags(_)) => true,
            _ => false,
        },
    }
}

/// `r` goes to the sink of server pushes while command `k` runs.
pub open spec fn forwarded(k: Command, r: Response) -> bool {
    match k {
        Command::Select => r matches Response::MailboxData(MailboxDatum::Status { .. })
            || r is Expunge,
        _ => !own_data(k, r) && is_unilateral(r),
    }
}

/// `r` is neither data of command `k` nor a push.
pub open spec fn fault(k: Command, r: Response) -> bool {
    !own_data(k, r) && !forwarded(k, r)
}

/// The error that a faulty record `r` raises under command `k`.
pub open spec fn error_for(k: Command, r: Response) -> Error {
    if k == Command::Select && r is Data {
        Error::ProtocolViolation(r)
    } else {
        Error::Unexpected(r)
    }
}

/// What one record of an aggregating response comes to: taken into the
/// result, a push for the sink, or the end of the call with an error.
#[derive(Debug, PartialEq, Eq)]
pub enum Outcome {
    Taken,
    Push(UnsolicitedResponse),
    Fail(Error),
}

/// `o` is how command `k` routes the record `r`.
pub open spec fn routed(k: Command, r: Response, o: Outcome) -> bool {
    if fault(k, r) {
        o == Outcome::Fail(error_for(k, r))
    } else if forwarded(k, r) {
        o matches Outcome::Push(e) && event_of(r, e)
    } else {
        o is Taken
    }
}

/// The records that an aggregating command handles: those before the
/// completion and before the first faulty record.
pub open spec fn handled(k: Command, rs: Seq<Response>) -> Seq<Response>
    decreases rs.len(),
{
    if rs.len() == 0 || rs[0] is Done || fault(k, rs[0]) {
        seq![]
    } else {
        seq![rs[0]] + handled(k, rs.drop_first())
    }
}

/// The first faulty record before the completion, if any.
pub open spec fn first_fault(k: Command, rs: Seq<Response>) -> Option<Response>
    decreases rs.len(),
{
    if rs.len() == 0 || rs[0] is Done {
        None
    } else if fault(k, rs[0]) {
        Some(rs[0])
    } else {
        first_fault(k, rs.drop_first())
    }
}

/// The records of `s` that go to the sink, in order.
pub open spec fn forwards(k: Command, s: Seq<Response>) -> Seq<Response>
    decreases s.len(),
{
    if s.len() == 0 {
        seq![]
    } else if forwarded(k, s.last()) {
        forwards(k, s.drop_last()).push(s.last())
    } else {
        forwards(k, s.drop_last())
    }
}

/// The records of `s` that do not go to the sink, in order.
pub open spec fn answered(k: Command, s: Seq<Response>) -> Seq<Response>
    decreases s.len(),
{
    if s.len() == 0 {
        seq![]
    } else if forwarded(k, s.last()) {
        answered(k, s.drop_last())
    } else {
        answered(k, s.drop_last()).push(s.last())
    }
}

pub open spec fn no_fault(k: Command, s: Seq<Response>) -> bool {
    forall|i: int| 0 <= i < s.len() ==> !fault(k, #[trigger] s[i])
}

/// Once the records up to a fault or the completion are taken, `handled` is
/// exactly them and `first_fault` is what comes next.
pub proof fn lemma_handled_split(k: Command, seen: Seq<Response>, rest: Seq<Response>)
    requires
        no_completion(seen),
        no_fault(k, seen),
        rest.len() == 0 || rest[0] is Done || fault(k, rest[0]),
    ensures
        handled(k, seen + rest) == seen,
        first_fault(k, seen + rest) == (if rest.len() == 0 || rest[0] is Done {
            None
        } else {
            Some(rest[0])
        }),
    decreases seen.len(),
{
    if seen.len() == 0 {
        assert(seen + rest =~= rest);
    } else {
        assert((seen + rest)[0] == seen[0]);
        assert((seen + rest).drop_first() =~= seen.drop_first() + rest);
        assert(no_completion(seen.drop_first()) && no_fault(k, seen.drop_first())) by {
            assert forall|i: int| 0 <= i < seen.drop_first().len() implies !(
            #[trigger] seen.drop_first()[i] is Done) && !fault(k, seen.drop_first()[i]) by {
                assert(seen.drop_first()[i] == seen[i + 1]);
            }
        }
        assert(!(seen[0] is Done) && !fault(k, seen[0]));
        lemma_handled_split(k, seen.drop_first(), rest);
        assert(seq![seen[0]] + seen.drop_first() =~= seen);
    }
}

} // verus!
