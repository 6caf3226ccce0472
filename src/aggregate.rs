use vstd::prelude::*;
use std::collections::HashSet;
use crate::capabilities::{announced, cap_set, Capabilities};
use crate::classify::{is_fault, is_forwarded};
use crate::model::{
    first_fault, forwards, handled, lemma_handled_split, no_fault, routed, Command, Outcome,
};
use crate::stream::{no_completion, RecordQueue};
use crate::types::{Error, Response, UnsolicitedResponse};
use crate::unilateral::{events_of, handle_unilateral, lemma_events_push};

verus! {

broadcast use vstd::std_specs::hash::group_hash_axioms;

/// Every id that the records `s` report.
pub open spec fn reported(s: Seq<Response>) -> Set<u32>
    decreases s.len(),
{
    if s.len() == 0 {
        Set::empty()
    } else {
        match s.last() {
            Response::IDs(ids) => reported(s.drop_last()).union(ids@.to_set()),
            _ => reported(s.drop_last()),
        }
    }
}

/// Routes one record of a `CAPABILITY` response, taking its capabilities in.
pub fn capabilities_step(caps: &mut Capabilities, r: Response) -> (o: Outcome)
    requires
        old(caps).wf(),
    ensures
        final(caps).wf(),
        routed(Command::Capabilities, r, o),
        final(caps).view() == match r {
            Response::Capabilities(cs) => old(caps).view().union(cap_set(cs@)),
            _ => old(caps).view(),
        },
{
    let k = Command::Capabilities;
    if is_fault(k, &r) {
        return Outcome::Fail(Error::Unexpected(r));
    }
    if is_forwarded(k, &r) {
        return match handle_unilateral(r) {
            Ok(e) => Outcome::Push(e),
            Err(other) => {
                assert(false);
                Outcome::Fail(Error::Unexpected(other))
            },
        };
    }
    if let Response::Capabilities(cs) = r {
        caps.extend(cs);
    }
    Outcome::Taken
}

/// Routes one record of a `SEARCH` response, taking its ids in.
pub fn ids_step(ids: &mut HashSet<u32>, r: Response) -> (o: Outcome)
    ensures
        routed(Command::Ids, r, o),
        final(ids)@ == match r {
            Response::IDs(list) => old(ids)@.union(list@.to_set()),
            _ => old(ids)@,
        },
{
    let k = Command::Ids;
    if is_fault(k, &r) {
        return Outcome::Fail(Error::Unexpected(r));
    }
    if is_forwarded(k, &r) {
        return match handle_unilateral(r) {
            Ok(e) => Outcome::Push(e),
            Err(other) => {
                assert(false);
                Outcome::Fail(Error::Unexpected(other))
            },
        };
    }
    if let Response::IDs(list) = r {
        let ghost start = ids@;
        let mut i: usize = 0;
        while i < list.len()
            invariant
                i <= list@.len(),
                ids@ == start.union(list@.take(i as int).to_set()),
            decreases list@.len() - i,
        {
            ids.insert(list[i]);
            assert(list@.take(i + 1 as int) =~= list@.take(i as int).push(list@[i as int]));
            proof {
                list@.take(i as int).lemma_push_to_set_commute(list@[i as int]);
            }
            assert(ids@ =~= start.union(list@.take(i + 1 as int).to_set()));
            i += 1;
        }
        assert(list@.take(list@.len() as int) =~= list@);
    }
    Outcome::Taken
}

/// Routes one record of the response of a command that returns no data.
pub fn noop_step(r: Response) -> (o: Outcome)
    ensures
        routed(Command::Noop, r, o),
{
    match handle_unilateral(r) {
        Ok(e) => Outcome::Push(e),
        Err(other) => Outcome::Fail(Error::Unexpected(other)),
    }
}

/// Collects the capabilities of a `CAPABILITY` response. Pushes go to the
/// returned pushes; any other record ends the call with an error.
pub fn parse_capabilities(records: Vec<Response>) -> (out: (
    Result<Capabilities, Error>,
    Vec<UnsolicitedResponse>,
))
    ensures
        events_of(forwards(Command::Capabilities, handled(Command::Capabilities, records@)), out.1@),
        match first_fault(Command::Capabilities, records@) {
            None => out.0 is Ok && out.0->Ok_0.wf()
                && out.0->Ok_0.view() == announced(handled(Command::Capabilities, records@)),
            Some(r) => out.0 == Err::<Capabilities, Error>(Error::Unexpected(r)),
        },
{
    let ghost all = records@;
    let k = Command::Capabilities;
    let mut queue = RecordQueue::new(records);
    let mut caps = Capabilities::new();
    let mut events: Vec<UnsolicitedResponse> = Vec::new();
    let ghost mut seen: Seq<Response> = seq![];
    loop
        invariant
            k == Command::Capabilities,
            all == records@,
            all == seen + queue@,
            no_completion(seen),
            no_fault(k, seen),
            caps.wf(),
            caps.view() == announced(seen),
            events_of(forwards(k, seen), events@),
        decreases queue@.len(),
    {
        let ghost before = queue@;
        match queue.next_in_command() {
            None => {
                proof {
                    lemma_handled_split(k, seen, before);
                }
                return (Ok(caps), events);
            },
            Some(r) => {
                let ghost rg = r;
                assert(seen.push(rg).drop_last() =~= seen);
                match capabilities_step(&mut caps, r) {
                    Outcome::Fail(e) => {
                        proof {
                            lemma_handled_split(k, seen, before);
                        }
                        return (Err(e), events);
                    },
                    Outcome::Push(ev) => {
                        proof {
                            lemma_events_push(forwards(k, seen), events@, rg, ev);
                        }
                        events.push(ev);
                    },
                    Outcome::Taken => {},
                }
                proof {
                    assert(all == seen.push(rg) + queue@) by {
                        assert(before =~= seq![rg] + queue@);
                    }
                    seen = seen.push(rg);
                }
            },
        }
    }
}

/// Collects the ids of a `SEARCH` response. Pushes go to the returned
/// pushes; any other record ends the call with an error.
pub fn parse_ids(records: Vec<Response>) -> (out: (Result<HashSet<u32>, Error>, Vec<UnsolicitedResponse>))
    ensures
        events_of(forwards(Command::Ids, handled(Command::Ids, records@)), out.1@),
        match first_fault(Command::Ids, records@) {
            None => out.0 is Ok && out.0->Ok_0@ == reported(handled(Command::Ids, records@)),
            Some(r) => out.0 == Err::<HashSet<u32>, Error>(Error::Unexpected(r)),
        },
{
    let ghost all = records@;
    let k = Command::Ids;
    let mut queue = RecordQueue::new(records);
    let mut ids: HashSet<u32> = HashSet::new();
    let mut events: Vec<UnsolicitedResponse> = Vec::new();
    let ghost mut seen: Seq<Response> = seq![];
    loop
        invariant
            k == Command::Ids,
            all == records@,
            all == seen + queue@,
            no_completion(seen),
            no_fault(k, seen),
            ids@ == reported(seen),
            events_of(forwards(k, seen), events@),
        decreases queue@.len(),
    {
        let ghost before = queue@;
        match queue.next_in_command() {
            None => {
                proof {
                    lemma_handled_split(k, seen, before);
                }
                return (Ok(ids), events);
            },
            Some(r) => {
                let ghost rg = r;
                assert(seen.push(rg).drop_last() =~= seen);
                match ids_step(&mut ids, r) {
                    Outcome::Fail(e) => {
                        proof {
                            lemma_handled_split(k, seen, before);
                        }
                        return (Err(e), events);
                    },
                    Outcome::Push(ev) => {
                        proof {
                            lemma_events_push(forwards(k, seen), events@, rg, ev);
                        }
                        events.push(ev);
                    },
                    Outcome::Taken => {},
                }
                proof {
                    assert(all == seen.push(rg) + queue@) by {
                        assert(before =~= seq![rg] + queue@);
                    }
                    seen = seen.push(rg);
                }
            },
        }
    }
}

/// Checks the response of a command that returns no data (`NOOP` and the
/// like): pushes go to the returned pushes, any other record ends the call
/// with an error.
pub fn parse_noop(records: Vec<Response>) -> (out: (Result<(), Error>, Vec<UnsolicitedResponse>))
    ensures
        events_of(forwards(Command::Noop, handled(Command::Noop, records@)), out.1@),
        match first_fault(Command::Noop, records@) {
            None => out.0 is Ok,
            Some(r) => out.0 == Err::<(), Error>(Error::Unexpected(r)),
        },
{
    let ghost all = records@;
    let k = Command::Noop;
    let mut queue = RecordQueue::new(records);
    let mut events: Vec<UnsolicitedResponse> = Vec::new();
    let ghost mut seen: Seq<Response> = seq![];
    loop
        invariant
            k == Command::Noop,
            all == records@,
            all == seen + queue@,
            no_completion(seen),
            no_fault(k, seen),
            events_of(forwards(k, seen), events@),
        decreases queue@.len(),
    {
        let ghost before = queue@;
        match queue.next_in_command() {
            None => {
                proof {
                    lemma_handled_split(k, seen, before);
                }
                return (Ok(()), events);
            },
            Some(r) => {
                let ghost rg = r;
                assert(seen.push(rg).drop_last() =~= seen);
                match noop_step(r) {
                    Outcome::Fail(e) => {
                        proof {
                            lemma_handled_split(k, seen, before);
                        }
                        return (Err(e), events);
                    },
                    Outcome::Push(ev) => {
                        proof {
                            lemma_events_push(forwards(k, seen), events@, rg, ev);
                        }
                        events.push(ev);
                    },
                    Outcome::Taken => {},
                }
                proof {
                    assert(all == seen.push(rg) + queue@) by {
                        assert(before =~= seq![rg] + queue@);
                    }
                    seen = seen.push(rg);
                }
            },
        }
    }
}

} // verus!
