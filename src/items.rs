use vstd::prelude::*;
use crate::classify::is_forwarded;
use crate::model::{answered, forwarded, forwards, Command};
use crate::stream::{command_body, lemma_body_split, no_completion, RecordQueue};
use crate::types::{AttributeValue, Error, Fetch, MailboxDatum, Name, Response, UnsolicitedResponse};
use crate::unilateral::{event_of, events_of, handle_unilateral, lemma_events_push};

verus! {

/// The flags of every `FLAGS` attribute of `a`, in order.
pub open spec fn fetch_flags(a: Seq<AttributeValue>) -> Seq<String>
    decreases a.len(),
{
    if a.len() == 0 {
        seq![]
    } else {
        match a.last() {
            AttributeValue::Flags(fs) => fetch_flags(a.drop_last()) + fs@,
            _ => fetch_flags(a.drop_last()),
        }
    }
}

/// The last `UID` attribute of `a`.
pub open spec fn fetch_uid(a: Seq<AttributeValue>) -> Option<u32>
    decreases a.len(),
{
    if a.len() == 0 {
        None
    } else {
        match a.last() {
            AttributeValue::Uid(u) => Some(u),
            _ => fetch_uid(a.drop_last()),
        }
    }
}

/// The last `RFC822.SIZE` attribute of `a`.
pub open spec fn fetch_size(a: Seq<AttributeValue>) -> Option<u32>
    decreases a.len(),
{
    if a.len() == 0 {
        None
    } else {
        match a.last() {
            AttributeValue::Rfc822Size(n) => Some(n),
            _ => fetch_size(a.drop_last()),
        }
    }
}

/// `f` is the message that the attributes `attrs` of message `n` describe.
pub open spec fn fetch_of(n: u32, attrs: Vec<AttributeValue>, f: Fetch) -> bool {
    &&& f.message == n
    &&& f.fetch == attrs
    &&& f.flags@ == fetch_flags(attrs@)
    &&& f.uid == fetch_uid(attrs@)
    &&& f.size == fetch_size(attrs@)
}

/// The item that a listing yields for the record `r`.
pub open spec fn name_item(r: Response, o: Result<Name, Error>) -> bool {
    match r {
        Response::MailboxData(MailboxDatum::List { flags, delimiter, name }) => o == Ok::<
            Name,
            Error,
        >(Name { attributes: flags, delimiter, name }),
        _ => o == Err::<Name, Error>(Error::Unexpected(r)),
    }
}

/// The item that a fetch yields for the record `r`.
pub open spec fn fetch_item(r: Response, o: Result<Fetch, Error>) -> bool {
    match r {
        Response::Fetch(n, attrs) => o is Ok && fetch_of(n, attrs, o->Ok_0),
        _ => o == Err::<Fetch, Error>(Error::Unexpected(r)),
    }
}

/// The item that an expunge yields for the record `r`.
pub open spec fn expunge_item(r: Response, o: Result<u32, Error>) -> bool {
    match r {
        Response::Expunge(n) => o == Ok::<u32, Error>(n),
        _ => o == Err::<u32, Error>(Error::Unexpected(r)),
    }
}

/// Builds the message of a `FETCH` record, picking out its flags, uid and
/// size and keeping every attribute.
pub fn fetch_from(n: u32, attrs: Vec<AttributeValue>) -> (f: Fetch)
    ensures
        fetch_of(n, attrs, f),
{
    let mut flags: Vec<String> = Vec::new();
    let mut uid: Option<u32> = None;
    let mut size: Option<u32> = None;
    let mut i: usize = 0;
    while i < attrs.len()
        invariant
            i <= attrs@.len(),
            flags@ == fetch_flags(attrs@.take(i as int)),
            uid == fetch_uid(attrs@.take(i as int)),
            size == fetch_size(attrs@.take(i as int)),
        decreases attrs@.len() - i,
    {
        assert(attrs@.take(i + 1 as int).drop_last() =~= attrs@.take(i as int));
        match &attrs[i] {
            AttributeValue::Flags(fs) => {
                let ghost start = flags@;
                let mut j: usize = 0;
                while j < fs.len()
                    invariant
                        j <= fs@.len(),
                        flags@ == start + fs@.take(j as int),
                    decreases fs@.len() - j,
                {
                    flags.push(fs[j].clone());
                    assert(fs@.take(j + 1 as int) =~= fs@.take(j as int).push(fs@[j as int]));
                    assert(flags@ =~= start + fs@.take(j + 1 as int));
                    j += 1;
                }
                assert(fs@.take(fs@.len() as int) =~= fs@);
            },
            AttributeValue::Uid(u) => uid = Some(*u),
            AttributeValue::Rfc822Size(s) => size = Some(*s),
            _ => {},
        }
        i += 1;
    }
    assert(attrs@.take(attrs@.len() as int) =~= attrs@);
    Fetch { message: n, flags, uid, size, fetch: attrs }
}

/// What one record of a per-item response comes to: an item of the
/// sequence, or a push for the sink.
#[derive(Debug, PartialEq, Eq)]
pub enum Step<T> {
    Item(Result<T, Error>),
    Push(UnsolicitedResponse),
}

/// Routes one record of a `LIST` or `LSUB` response.
pub fn name_step(r: Response) -> (s: Step<Name>)
    ensures
        forwarded(Command::Names, r) ==> (s matches Step::Push(e) && event_of(r, e)),
        !forwarded(Command::Names, r) ==> (s matches Step::Item(o) && name_item(r, o)),
{
    if is_forwarded(Command::Names, &r) {
        match handle_unilateral(r) {
            Ok(e) => Step::Push(e),
            Err(other) => {
                assert(false);
                Step::Item(Err(Error::Unexpected(other)))
            },
        }
    } else {
        match r {
            Response::MailboxData(MailboxDatum::List { flags, delimiter, name }) => {
                Step::Item(Ok(Name { attributes: flags, delimiter, name }))
            },
            other => Step::Item(Err(Error::Unexpected(other))),
        }
    }
}

/// Routes one record of a `FETCH` response.
pub fn fetch_step(r: Response) -> (s: Step<Fetch>)
    ensures
        forwarded(Command::Fetches, r) ==> (s matches Step::Push(e) && event_of(r, e)),
        !forwarded(Command::Fetches, r) ==> (s matches Step::Item(o) && fetch_item(r, o)),
{
    if is_forwarded(Command::Fetches, &r) {
        match handle_unilateral(r) {
            Ok(e) => Step::Push(e),
            Err(other) => {
                assert(false);
                Step::Item(Err(Error::Unexpected(other)))
            },
        }
    } else {
        match r {
            Response::Fetch(n, attrs) => Step::Item(Ok(fetch_from(n, attrs))),
            other => Step::Item(Err(Error::Unexpected(other))),
        }
    }
}

/// Routes one record of an `EXPUNGE` response.
pub fn expunge_step(r: Response) -> (s: Step<u32>)
    ensures
        forwarded(Command::Expunge, r) ==> (s matches Step::Push(e) && event_of(r, e)),
        !forwarded(Command::Expunge, r) ==> (s matches Step::Item(o) && expunge_item(r, o)),
{
    if is_forwarded(Command::Expunge, &r) {
        match handle_unilateral(r) {
            Ok(e) => Step::Push(e),
            Err(other) => {
                assert(false);
                Step::Item(Err(Error::Unexpected(other)))
            },
        }
    } else {
        match r {
            Response::Expunge(n) => Step::Item(Ok(n)),
            other => Step::Item(Err(Error::Unexpected(other))),
        }
    }
}

/// The mailbox listing of a `LIST` or `LSUB` response: one item per record
/// before the completion that is not a push, in order, an entry for each
/// listing record and an error for any other. Pushes go to the returned pushes.
pub fn parse_names(records: Vec<Response>) -> (out: (
    Vec<Result<Name, Error>>,
    Vec<UnsolicitedResponse>,
))
    ensures
        events_of(forwards(Command::Names, command_body(records@)), out.1@),
        out.0@.len() == answered(Command::Names, command_body(records@)).len(),
        forall|i: int|
            0 <= i < out.0@.len() ==> #[trigger] name_item(
                answered(Command::Names, command_body(records@))[i],
                out.0@[i],
            ),
{
    let ghost all = records@;
    let k = Command::Names;
    let mut queue = RecordQueue::new(records);
    let mut items: Vec<Result<Name, Error>> = Vec::new();
    let mut events: Vec<UnsolicitedResponse> = Vec::new();
    let ghost mut seen: Seq<Response> = seq![];
    loop
        invariant
            k == Command::Names,
            all == records@,
            all == seen + queue@,
            no_completion(seen),
            events_of(forwards(k, seen), events@),
            items@.len() == answered(k, seen).len(),
            forall|i: int|
                0 <= i < items@.len() ==> #[trigger] name_item(answered(k, seen)[i], items@[i]),
        decreases queue@.len(),
    {
        let ghost before = queue@;
        match queue.next_in_command() {
            None => {
                proof {
                    lemma_body_split(seen, before);
                }
                return (items, events);
            },
            Some(r) => {
                let ghost rg = r;
                assert(seen.push(rg).drop_last() =~= seen);
                match name_step(r) {
                    Step::Push(ev) => {
                        proof {
                            lemma_events_push(forwards(k, seen), events@, rg, ev);
                        }
                        events.push(ev);
                    },
                    Step::Item(item) => {
                        items.push(item);
                    assert forall|i: int| 0 <= i < items@.len() implies #[trigger] name_item(
                        answered(k, seen.push(rg))[i],
                        items@[i],
                    ) by {
                        if i < items@.len() - 1 {
                            assert(name_item(answered(k, seen)[i], items@[i]));
                        }
                    }
                    },
                }
                proof {
                    assert(all == seen.push(rg) + queue@) by {
                        assert(before =~= seq![rg] + queue@);
                    }
                    assert(no_completion(seen.push(rg))) by {
                        assert forall|i: int| 0 <= i < seen.push(rg).len() implies !(
                        #[trigger] seen.push(rg)[i] is Done) by {
                            if i < seen.len() {
                                assert(seen.push(rg)[i] == seen[i]);
                            }
                        }
                    }
                    seen = seen.push(rg);
                }
            },
        }
    }
}

/// The messages of a `FETCH` response: one item per record before the
/// completion that is not a push, in order, a message for each `FETCH` record
/// and an error for any other. Pushes go to the returned pushes.
pub fn parse_fetches(records: Vec<Response>) -> (out: (
    Vec<Result<Fetch, Error>>,
    Vec<UnsolicitedResponse>,
))
    ensures
        events_of(forwards(Command::Fetches, command_body(records@)), out.1@),
        out.0@.len() == answered(Command::Fetches, command_body(records@)).len(),
        forall|i: int|
            0 <= i < out.0@.len() ==> #[trigger] fetch_item(
                answered(Command::Fetches, command_body(records@))[i],
                out.0@[i],
            ),
{
    let ghost all = records@;
    let k = Command::Fetches;
    let mut queue = RecordQueue::new(records);
    let mut items: Vec<Result<Fetch, Error>> = Vec::new();
    let mut events: Vec<UnsolicitedResponse> = Vec::new();
    let ghost mut seen: Seq<Response> = seq![];
    loop
        invariant
            k == Command::Fetches,
            all == records@,
            all == seen + queue@,
            no_completion(seen),
            events_of(forwards(k, seen), events@),
            items@.len() == answered(k, seen).len(),
            forall|i: int|
                0 <= i < items@.len() ==> #[trigger] fetch_item(answered(k, seen)[i], items@[i]),
        decreases queue@.len(),
    {
        let ghost before = queue@;
        match queue.next_in_command() {
            None => {
                proof {
                    lemma_body_split(seen, before);
                }
                return (items, events);
            },
            Some(r) => {
                let ghost rg = r;
                assert(seen.push(rg).drop_last() =~= seen);
                match fetch_step(r) {
                    Step::Push(ev) => {
                        proof {
                            lemma_events_push(forwards(k, seen), events@, rg, ev);
                        }
                        events.push(ev);
                    },
                    Step::Item(item) => {
                        items.push(item);
                    assert forall|i: int| 0 <= i < items@.len() implies #[trigger] fetch_item(
                        answered(k, seen.push(rg))[i],
                        items@[i],
                    ) by {
                        if i < items@.len() - 1 {
                            assert(fetch_item(answered(k, seen)[i], items@[i]));
                        }
                    }
                    },
                }
                proof {
                    assert(all == seen.push(rg) + queue@) by {
                        assert(before =~= seq![rg] + queue@);
                    }
                    assert(no_completion(seen.push(rg))) by {
                        assert forall|i: int| 0 <= i < seen.push(rg).len() implies !(
                        #[trigger] seen.push(rg)[i] is Done) by {
                            if i < seen.len() {
                                assert(seen.push(rg)[i] == seen[i]);
                            }
                        }
                    }
                    seen = seen.push(rg);
                }
            },
        }
    }
}

/// The ids of an `EXPUNGE` response: one item per record before the
/// completion that is not a push, in order, the id of each expunge record and
/// an error for any other. Pushes go to the returned pushes.
pub fn parse_expunge(records: Vec<Response>) -> (out: (
    Vec<Result<u32, Error>>,
    Vec<UnsolicitedResponse>,
))
    ensures
        events_of(forwards(Command::Expunge, command_body(records@)), out.1@),
        out.0@.len() == answered(Command::Expunge, command_body(records@)).len(),
        forall|i: int|
            0 <= i < out.0@.len() ==> #[trigger] expunge_item(
                answered(Command::Expunge, command_body(records@))[i],
                out.0@[i],
            ),
{
    let ghost all = records@;
    let k = Command::Expunge;
    let mut queue = RecordQueue::new(records);
    let mut items: Vec<Result<u32, Error>> = Vec::new();
    let mut events: Vec<UnsolicitedResponse> = Vec::new();
    let ghost mut seen: Seq<Response> = seq![];
    loop
        invariant
            k == Command::Expunge,
            all == records@,
            all == seen + queue@,
            no_completion(seen),
            events_of(forwards(k, seen), events@),
            items@.len() == answered(k, seen).len(),
            forall|i: int|
                0 <= i < items@.len() ==> #[trigger] expunge_item(answered(k, seen)[i], items@[i]),
        decreases queue@.len(),
    {
        let ghost before = queue@;
        match queue.next_in_command() {
            None => {
                proof {
                    lemma_body_split(seen, before);
                }
                return (items, events);
            },
            Some(r) => {
                let ghost rg = r;
                assert(seen.push(rg).drop_last() =~= seen);
                match expunge_step(r) {
                    Step::Push(ev) => {
                        proof {
                            lemma_events_push(forwards(k, seen), events@, rg, ev);
                        }
                        events.push(ev);
                    },
                    Step::Item(item) => {
                        items.push(item);
                    assert forall|i: int| 0 <= i < items@.len() implies #[trigger] expunge_item(
                        answered(k, seen.push(rg))[i],
                        items@[i],
                    ) by {
                        if i < items@.len() - 1 {
                            assert(expunge_item(answered(k, seen)[i], items@[i]));
                        }
                    }
                    },
                }
                proof {
                    assert(all == seen.push(rg) + queue@) by {
                        assert(before =~= seq![rg] + queue@);
                    }
                    assert(no_completion(seen.push(rg))) by {
                        assert forall|i: int| 0 <= i < seen.push(rg).len() implies !(
                        #[trigger] seen.push(rg)[i] is Done) by {
                            if i < seen.len() {
                                assert(seen.push(rg)[i] == seen[i]);
                            }
                        }
                    }
                    seen = seen.push(rg);
                }
            },
        }
    }
}

/// The data of the first `RFC822.HEADER` attribute of `a` (when `header`)
/// or of the first `RFC822` attribute (otherwise) that carries data.
pub open spec fn first_data(a: Seq<AttributeValue>, header: bool) -> Option<Seq<u8>>
    decreases a.len(),
{
    if a.len() == 0 {
        None
    } else {
        match a[0] {
            AttributeValue::Rfc822(Some(d)) if !header => Some(d@),
            AttributeValue::Rfc822Header(Some(d)) if header => Some(d@),
            _ => first_data(a.drop_first(), header),
        }
    }
}

fn find_data(a: &Vec<AttributeValue>, header: bool) -> (r: Option<&[u8]>)
    ensures
        match r {
            Some(d) => first_data(a@, header) == Some(d@),
            None => first_data(a@, header) is None,
        },
{
    let mut i: usize = 0;
    assert(a@.skip(0) =~= a@);
    while i < a.len()
        invariant
            i <= a@.len(),
            first_data(a@, header) == first_data(a@.skip(i as int), header),
        decreases a@.len() - i,
    {
        assert(a@.skip(i as int)[0] == a@[i as int]);
        assert(a@.skip(i as int).drop_first() =~= a@.skip(i + 1 as int));
        match &a[i] {
            AttributeValue::Rfc822(Some(d)) => {
                if !header {
                    return Some(d.as_slice());
                }
            },
            AttributeValue::Rfc822Header(Some(d)) => {
                if header {
                    return Some(d.as_slice());
                }
            },
            _ => {},
        }
        i += 1;
    }
    assert(a@.skip(i as int).len() == 0);
    None
}

impl Fetch {
    pub fn flags(&self) -> (r: &[String])
        ensures
            r@ == self.flags@,
    {
        self.flags.as_slice()
    }

    /// The message text of the first `RFC822` attribute, if any.
    pub fn body(&self) -> (r: Option<&[u8]>)
        ensures
            match r {
                Some(d) => first_data(self.fetch@, false) == Some(d@),
                None => first_data(self.fetch@, false) is None,
            },
    {
        find_data(&self.fetch, false)
    }

    /// The header of the first `RFC822.HEADER` attribute, if any.
    pub fn header(&self) -> (r: Option<&[u8]>)
        ensures
            match r {
                Some(d) => first_data(self.fetch@, true) == Some(d@),
                None => first_data(self.fetch@, true) is None,
            },
    {
        find_data(&self.fetch, true)
    }
}

impl Name {
    pub fn attributes(&self) -> (r: &[String])
        ensures
            r@ == self.attributes@,
    {
        self.attributes.as_slice()
    }

    pub fn delimiter(&self) -> (r: Option<&str>)
        ensures
            match r {
                Some(d) => self.delimiter matches Some(s) && s@ == d@,
                None => self.delimiter is None,
            },
    {
        match &self.delimiter {
            Some(d) => Some(d.as_str()),
            None => None,
        }
    }

    pub fn name(&self) -> (r: &str)
        ensures
            r@ == self.name@,
    {
        self.name.as_str()
    }
}

} // verus!
