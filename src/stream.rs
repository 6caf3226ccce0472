use vstd::prelude::*;
use crate::types::Response;

verus! {

/// The records of one command's response, up to and including its completion.
pub open spec fn command_body(rs: Seq<Response>) -> Seq<Response>
    decreases rs.len(),
{
    if rs.len() == 0 || rs[0] is Done {
        seq![]
    } else {
        seq![rs[0]] + command_body(rs.drop_first())
    }
}

pub open spec fn no_completion(s: Seq<Response>) -> bool {
    forall|i: int| 0 <= i < s.len() ==> !(#[trigger] s[i] is Done)
}

/// Once the records before the completion are taken, the body is exactly them.
pub proof fn lemma_body_split(seen: Seq<Response>, rest: Seq<Response>)
    requires
        no_completion(seen),
        rest.len() == 0 || rest[0] is Done,
    ensures
        command_body(seen + rest) == seen,
    decreases seen.len(),
{
    if seen.len() == 0 {
        assert(seen + rest =~= rest);
    } else {
        assert((seen + rest)[0] == seen[0]);
        assert((seen + rest).drop_first() =~= seen.drop_first() + rest);
        assert(no_completion(seen.drop_first())) by {
            assert forall|i: int| 0 <= i < seen.drop_first().len() implies !(
            #[trigger] seen.drop_first()[i] is Done) by {
                assert(seen.drop_first()[i] == seen[i + 1]);
            }
        }
        lemma_body_split(seen.drop_first(), rest);
        assert(seq![seen[0]] + seen.drop_first() =~= seen);
    }
}

/// Hands out the records of a response one at a time, in order, and stops at
/// the completion record, which it does not hand out.
pub struct RecordQueue {
    rev: Vec<Response>,
}

impl View for RecordQueue {
    type V = Seq<Response>;

    closed spec fn view(&self) -> Seq<Response> {
        Seq::new(self.rev@.len(), |i: int| self.rev@[self.rev@.len() - 1 - i])
    }
}

impl RecordQueue {
    pub fn new(records: Vec<Response>) -> (q: RecordQueue)
        ensures
            q@ == records@,
    {
        let mut records = records;
        let ghost all = records@;
        let mut rev: Vec<Response> = Vec::new();
        while records.len() > 0
            invariant
                records@.len() + rev@.len() == all.len(),
                records@ == all.take(records@.len() as int),
                forall|j: int|
                    0 <= j < rev@.len() ==> #[trigger] rev@[j] == all[all.len() - 1 - j],
            decreases records.len(),
        {
            let x = records.pop().unwrap();
            rev.push(x);
        }
        let q = RecordQueue { rev };
        assert(q@ =~= all);
        q
    }

    /// The next record before the completion, if any. The completion itself
    /// stays in the queue.
    pub fn next_in_command(&mut self) -> (r: Option<Response>)
        ensures
            old(self)@.len() == 0 || old(self)@[0] is Done ==> r is None && final(self)@
                == old(self)@,
            !(old(self)@.len() == 0 || old(self)@[0] is Done) ==> r == Some(old(self)@[0])
                && final(self)@ == old(self)@.drop_first(),
    {
        let n = self.rev.len();
        if n == 0 {
            return None;
        }
        if let Response::Done { .. } = &self.rev[n - 1] {
            return None;
        }
        let r = self.rev.pop();
        assert(self@ =~= old(self)@.drop_first());
        r
    }
}

} // verus!
