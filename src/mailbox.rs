use vstd::prelude::*;
use crate::classify::{is_fault, is_forwarded};
use crate::model::{
    error_for, first_fault, forwards, handled, lemma_handled_split, no_fault, routed, Command,
    Outcome,
};
use crate::stream::{no_completion, RecordQueue};
use crate::types::{Error, MailboxDatum, Response, ResponseCode, UnsolicitedResponse};
use crate::unilateral::{events_of, handle_unilateral, lemma_events_push};

verus! {

/// What a mailbox selection reports of the selected mailbox.
#[derive(Debug)]
pub struct Mailbox {
    pub flags: Vec<String>,
    pub exists: u32,
    pub recent: u32,
    pub unseen: Option<u32>,
    pub permanent_flags: Vec<String>,
    pub uid_next: Option<u32>,
    pub uid_validity: Option<u32>,
}

pub struct MailboxView {
    pub flags: Seq<String>,
    pub exists: u32,
    pub recent: u32,
    pub unseen: Option<u32>,
    pub permanent_flags: Seq<String>,
    pub uid_next: Option<u32>,
    pub uid_validity: Option<u32>,
}

impl View for Mailbox {
    type V = MailboxView;

    open spec fn view(&self) -> MailboxView {
        MailboxView {
            flags: self.flags@,
            exists: self.exists,
            recent: self.recent,
            unseen: self.unseen,
            permanent_flags: self.permanent_flags@,
            uid_next: self.uid_next,
            uid_validity: self.uid_validity,
        }
    }
}

/// The state before any record is seen: counts zero, no flags, nothing else known.
pub open spec fn unselected() -> MailboxView {
    MailboxView {
        flags: seq![],
        exists: 0,
        recent: 0,
        unseen: None,
        permanent_flags: seq![],
        uid_next: None,
        uid_validity: None,
    }
}

/// What one record of a selection does to the state.
pub open spec fn select_step(m: MailboxView, r: Response) -> MailboxView {
    match r {
        Response::Data { code, .. } => match code {
            Some(ResponseCode::UidValidity(n)) => MailboxView { uid_validity: Some(n), ..m },
            Some(ResponseCode::UidNext(n)) => MailboxView { uid_next: Some(n), ..m },
            Some(ResponseCode::Unseen(n)) => MailboxView { unseen: Some(n), ..m },
            Some(ResponseCode::PermanentFlags(fs)) => MailboxView { permanent_flags: fs@, ..m },
            _ => m,
        },
        Response::MailboxData(MailboxDatum::Exists(n)) => MailboxView { exists: n, ..m },
        Response::MailboxData(MailboxDatum::Recent(n)) => MailboxView { recent: n, ..m },
        Response::MailboxData(MailboxDatum::Flags(fs)) => MailboxView { flags: fs@, ..m },
        _ => m,
    }
}

/// The state after the records `s`, in order.
pub open spec fn selected(s: Seq<Response>) -> MailboxView
    decreases s.len(),
{
    if s.len() == 0 {
        unselected()
    } else {
        select_step(selected(s.drop_last()), s.last())
    }
}

impl Mailbox {
    pub fn new() -> (m: Mailbox)
        ensures
            m@ == unselected(),
    {
        Mailbox {
            flags: Vec::new(),
            exists: 0,
            recent: 0,
            unseen: None,
            permanent_flags: Vec::new(),
            uid_next: None,
            uid_validity: None,
        }
    }

    /// Takes in one record of a selection.
    pub fn apply(&mut self, r: Response)
        ensures
            final(self)@ == select_step(old(self)@, r),
    {
        match r {
            Response::Data { code, .. } => match code {
                Some(ResponseCode::UidValidity(n)) => self.uid_validity = Some(n),
                Some(ResponseCode::UidNext(n)) => self.uid_next = Some(n),
                Some(ResponseCode::Unseen(n)) => self.unseen = Some(n),
                Some(ResponseCode::PermanentFlags(fs)) => self.permanent_flags = fs,
                _ => {},
            },
            Response::MailboxData(MailboxDatum::Exists(n)) => self.exists = n,
            Response::MailboxData(MailboxDatum::Recent(n)) => self.recent = n,
            Response::MailboxData(MailboxDatum::Flags(fs)) => self.flags = fs,
            _ => {},
        }
    }
}

/// Routes one record of a `SELECT` or `EXAMINE` response, taking the
/// mailbox state it reports in.
pub fn mailbox_step(mailbox: &mut Mailbox, r: Response) -> (o: Outcome)
    ensures
        routed(Command::Select, r, o),
        final(mailbox)@ == (if o is Taken {
            select_step(old(mailbox)@, r)
        } else {
            old(mailbox)@
        }),
{
    let k = Command::Select;
    if is_fault(k, &r) {
        let e = if let Response::Data { .. } = &r {
            Error::ProtocolViolation(r)
        } else {
            Error::Unexpected(r)
        };
        return Outcome::Fail(e);
    }
    if is_forwarded(k, &r) {
        return match handle_unilateral(r) {
            Ok(e) => Outcome::Push(e),
            Err(other) => {
                assert(false);
                Outcome::Fail(Error::Unexpected(other))
            },
        };
    }
    mailbox.apply(r);
    Outcome::Taken
}

/// Accumulates the state of a selected mailbox from the records of a
/// `SELECT` or `EXAMINE` response. Status pushes of other mailboxes and
/// expunges go to the returned pushes; any other record ends the call with an
/// error, and a status line that is not `OK` is a protocol violation.
pub fn parse_mailbox(records: Vec<Response>) -> (out: (
    Result<Mailbox, Error>,
    Vec<UnsolicitedResponse>,
))
    ensures
        events_of(forwards(Command::Select, handled(Command::Select, records@)), out.1@),
        match first_fault(Command::Select, records@) {
            None => out.0 is Ok && out.0->Ok_0@ == selected(handled(Command::Select, records@)),
            Some(r) => out.0 == Err::<Mailbox, Error>(error_for(Command::Select, r)),
        },
{
    let ghost all = records@;
    let k = Command::Select;
    let mut queue = RecordQueue::new(records);
    let mut mailbox = Mailbox::new();
    let mut events: Vec<UnsolicitedResponse> = Vec::new();
    let ghost mut seen: Seq<Response> = seq![];
    loop
        invariant
            k == Command::Select,
            all == records@,
            all == seen + queue@,
            no_completion(seen),
            no_fault(k, seen),
            mailbox@ == selected(seen),
            events_of(forwards(k, seen), events@),
        decreases queue@.len(),
    {
        let ghost before = queue@;
        let next = queue.next_in_command();
        match next {
            None => {
                proof {
                    lemma_handled_split(k, seen, before);
                }
                return (Ok(mailbox), events);
            },
            Some(r) => {
                let ghost rg = r;
                assert(seen.push(rg).drop_last() =~= seen);
                match mailbox_step(&mut mailbox, r) {
                    Outcome::Fail(e) => {
                        proof {
                            lemma_handled_split(k, seen, before);
                        }
                        return (Err(e), events);
                    },
                    Outcome::Push(ev) => {
                        proof {
                            lemma_events_push(forwards(k, seen), events@, rg, ev);
                        }
                        events.push(ev);
                    },
                    Outcome::Taken => {},
                }
                proof {
                    assert(all == seen.push(rg) + queue@) by {
                        assert(before =~= seq![rg] + queue@);
                    }
                    seen = seen.push(rg);
                }
            },
        }
    }
}

} // verus!
