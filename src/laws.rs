use vstd::prelude::*;
use crate::aggregate::reported;
use crate::capabilities::{announced, cap_key, cap_set, folded};
use crate::items::{expunge_item, fetch_flags, fetch_item, fetch_size, fetch_uid, name_item};
use crate::mailbox::{selected, unselected};
use crate::model::{
    answered, fault, first_fault, forwarded, forwards, handled, no_fault, Command,
};
use crate::stream::{command_body, no_completion};
use crate::types::{AttributeValue, Capability, Error, Fetch, MailboxDatum, Name, Response};
use crate::unilateral::is_unilateral;

verus! {

/// The records before the first fault or completion are handled as they
/// stand, and the first fault is that of what follows them.
pub proof fn lemma_handled_prefix(k: Command, s1: Seq<Response>, s2: Seq<Response>)
    requires
        no_completion(s1),
        no_fault(k, s1),
    ensures
        handled(k, s1 + s2) == s1 + handled(k, s2),
        first_fault(k, s1 + s2) == first_fault(k, s2),
    decreases s1.len(),
{
    if s1.len() == 0 {
        assert(s1 + s2 =~= s2);
        assert(s1 + handled(k, s2) =~= handled(k, s2));
    } else {
        assert((s1 + s2)[0] == s1[0]);
        assert(!(s1[0] is Done) && !fault(k, s1[0]));
        assert((s1 + s2).drop_first() =~= s1.drop_first() + s2);
        assert(no_completion(s1.drop_first()) && no_fault(k, s1.drop_first())) by {
            assert forall|i: int| 0 <= i < s1.drop_first().len() implies !(
            #[trigger] s1.drop_first()[i] is Done) && !fault(k, s1.drop_first()[i]) by {
                assert(s1.drop_first()[i] == s1[i + 1]);
            }
        }
        lemma_handled_prefix(k, s1.drop_first(), s2);
        assert(seq![s1[0]] + (s1.drop_first() + handled(k, s2)) =~= s1 + handled(k, s2));
    }
}

/// What two runs of records announce together.
pub proof fn lemma_announced_concat(a: Seq<Response>, b: Seq<Response>)
    ensures
        announced(a + b) == announced(a).union(announced(b)),
    decreases b.len(),
{
    if b.len() == 0 {
        assert(a + b =~= a);
        assert(announced(a).union(Set::empty()) =~= announced(a));
    } else {
        assert((a + b).drop_last() =~= a + b.drop_last());
        assert((a + b).last() == b.last());
        lemma_announced_concat(a, b.drop_last());
        match b.last() {
            Response::Capabilities(cs) => {
                assert(announced(a + b) =~= announced(a).union(announced(b)));
            },
            _ => {},
        }
    }
}

/// Announcing, anywhere before the completion and before any fault,
/// capabilities that the response announces anyway, in whatever ASCII case,
/// changes neither the outcome nor the capability set.
pub proof fn capabilities_reannounce(s1: Seq<Response>, ts: Vec<Capability>, s2: Seq<Response>)
    requires
        no_completion(s1),
        no_fault(Command::Capabilities, s1),
        cap_set(ts@).subset_of(announced(handled(Command::Capabilities, s1 + s2))),
    ensures
        first_fault(Command::Capabilities, s1.push(Response::Capabilities(ts)) + s2)
            == first_fault(Command::Capabilities, s1 + s2),
        announced(handled(Command::Capabilities, s1.push(Response::Capabilities(ts)) + s2))
            == announced(handled(Command::Capabilities, s1 + s2)),
{
    let k = Command::Capabilities;
    let c = Response::Capabilities(ts);
    let s1c = s1.push(c);
    assert(no_completion(s1c) && no_fault(k, s1c)) by {
        assert forall|i: int| 0 <= i < s1c.len() implies !(#[trigger] s1c[i] is Done) && !fault(
            k,
            s1c[i],
        ) by {
            if i < s1.len() {
                assert(s1c[i] == s1[i]);
            }
        }
    }
    lemma_handled_prefix(k, s1c, s2);
    lemma_handled_prefix(k, s1, s2);
    let h2 = handled(k, s2);
    lemma_announced_concat(s1c, h2);
    lemma_announced_concat(s1, h2);
    assert(s1c.drop_last() =~= s1);
    assert(announced(s1c) == announced(s1).union(cap_set(ts@)));
    assert(announced(s1c + h2) =~= announced(s1 + h2));
}

/// Capabilities whose text differs only in ASCII case are the same capability.
pub proof fn capabilities_case_insensitive(a: String, b: String)
    requires
        folded(a@) == folded(b@),
    ensures
        cap_key(Capability::Atom(a)) == cap_key(Capability::Atom(b)),
        cap_key(Capability::Auth(a)) == cap_key(Capability::Auth(b)),
{
}

/// A response that is only its completion yields, under every command, no
/// data, no error and no push.
pub proof fn completion_only(k: Command, rs: Seq<Response>)
    requires
        rs.len() == 1,
        rs[0] is Done,
    ensures
        command_body(rs) == Seq::<Response>::empty(),
        handled(k, rs) == Seq::<Response>::empty(),
        first_fault(k, rs) is None,
        forwards(k, handled(k, rs)) == Seq::<Response>::empty(),
        forwards(k, command_body(rs)) == Seq::<Response>::empty(),
        answered(k, command_body(rs)) == Seq::<Response>::empty(),
        announced(handled(k, rs)) == Set::<(nat, Seq<u32>)>::empty(),
        reported(handled(k, rs)) == Set::<u32>::empty(),
        selected(handled(k, rs)) == unselected(),
{
}

/// In a listing, a listing record followed by a push yields exactly the
/// listing entry, and the push goes to the sink, each in the order met.
pub proof fn listing_then_push(l: Response, u: Response, rest: Seq<Response>)
    requires
        l matches Response::MailboxData(MailboxDatum::List { .. }),
        is_unilateral(u),
        rest.len() == 0 || rest[0] is Done,
    ensures
        answered(Command::Names, command_body(seq![l, u] + rest)) == seq![l],
        forwards(Command::Names, command_body(seq![l, u] + rest)) == seq![u],
{
    let rs = seq![l, u] + rest;
    assert(rs.drop_first() =~= seq![u] + rest);
    assert((seq![u] + rest).drop_first() =~= rest);
    assert(command_body(rest) == Seq::<Response>::empty());
    assert(command_body(seq![u] + rest) =~= seq![u]);
    assert(command_body(rs) =~= seq![l, u]);
    assert(!forwarded(Command::Names, l));
    assert(forwarded(Command::Names, u));
    assert(seq![l, u].drop_last() =~= seq![l]);
    assert(seq![l].drop_last() =~= Seq::<Response>::empty());
    assert(seq![l].last() == l);
    assert(seq![l, u].last() == u);
    assert(answered(Command::Names, Seq::<Response>::empty()) == Seq::<Response>::empty());
    assert(forwards(Command::Names, Seq::<Response>::empty()) == Seq::<Response>::empty());
    assert(answered(Command::Names, seq![l]) =~= seq![l]);
    assert(forwards(Command::Names, seq![l]) =~= Seq::<Response>::empty());
    assert(forwards(Command::Names, seq![l, u]) =~= seq![u]);
}

/// A response whose records before the completion are listing records and
/// pushes alone yields an entry for each listing record and sends each push,
/// every record one way and none lost.
pub proof fn listing_and_pushes(rs: Seq<Response>)
    requires
        forall|i: int|
            0 <= i < command_body(rs).len() ==> (#[trigger] command_body(rs)[i] matches Response::MailboxData(
                MailboxDatum::List { .. },
            ) || is_unilateral(command_body(rs)[i])),
    ensures
        answered(Command::Names, command_body(rs)).len() + forwards(
            Command::Names,
            command_body(rs),
        ).len() == command_body(rs).len(),
        forall|i: int|
            0 <= i < answered(Command::Names, command_body(rs)).len() ==> #[trigger] answered(
                Command::Names,
                command_body(rs),
            )[i] matches Response::MailboxData(MailboxDatum::List { .. }),
        forall|i: int|
            0 <= i < forwards(Command::Names, command_body(rs)).len() ==> is_unilateral(
                #[trigger] forwards(Command::Names, command_body(rs))[i],
            ),
{
    lemma_listing_split(command_body(rs));
}

proof fn lemma_listing_split(s: Seq<Response>)
    requires
        forall|i: int|
            0 <= i < s.len() ==> (#[trigger] s[i] matches Response::MailboxData(
                MailboxDatum::List { .. },
            ) || is_unilateral(s[i])),
    ensures
        answered(Command::Names, s).len() + forwards(Command::Names, s).len() == s.len(),
        forall|i: int|
            0 <= i < answered(Command::Names, s).len() ==> #[trigger] answered(Command::Names, s)[i] matches Response::MailboxData(
                MailboxDatum::List { .. },
            ),
        forall|i: int|
            0 <= i < forwards(Command::Names, s).len() ==> is_unilateral(
                #[trigger] forwards(Command::Names, s)[i],
            ),
    decreases s.len(),
{
    if s.len() > 0 {
        let p = s.drop_last();
        assert forall|i: int| 0 <= i < p.len() implies (#[trigger] p[i] matches Response::MailboxData(
            MailboxDatum::List { .. },
        ) || is_unilateral(p[i])) by {
            assert(p[i] == s[i]);
        }
        assert(s.last() == s[s.len() - 1]);
        lemma_listing_split(p);
    }
}

/// The body of a response runs on past any records that are not its completion.
pub proof fn lemma_body_prefix(a: Seq<Response>, b: Seq<Response>)
    requires
        no_completion(a),
    ensures
        command_body(a + b) == a + command_body(b),
    decreases a.len(),
{
    if a.len() == 0 {
        assert(a + b =~= b);
        assert(a + command_body(b) =~= command_body(b));
    } else {
        assert((a + b)[0] == a[0]);
        assert((a + b).drop_first() =~= a.drop_first() + b);
        assert(no_completion(a.drop_first())) by {
            assert forall|i: int| 0 <= i < a.drop_first().len() implies !(
            #[trigger] a.drop_first()[i] is Done) by {
                assert(a.drop_first()[i] == a[i + 1]);
            }
        }
        lemma_body_prefix(a.drop_first(), b);
        assert(seq![a[0]] + (a.drop_first() + command_body(b)) =~= a + command_body(b));
    }
}

/// What two runs of records answer together.
pub proof fn lemma_answered_concat(k: Command, a: Seq<Response>, b: Seq<Response>)
    ensures
        answered(k, a + b) == answered(k, a) + answered(k, b),
    decreases b.len(),
{
    if b.len() == 0 {
        assert(a + b =~= a);
        assert(answered(k, a) + answered(k, b) =~= answered(k, a));
    } else {
        assert((a + b).drop_last() =~= a + b.drop_last());
        assert((a + b).last() == b.last());
        lemma_answered_concat(k, a, b.drop_last());
        assert(answered(k, a + b) =~= answered(k, a) + answered(k, b));
    }
}

/// In a per-item response, a record that is neither the command's data nor a
/// push fails its own position only: the items before it are those of the
/// records before it, its item is an error that carries it, and the items of
/// the records after it follow.
pub proof fn fault_fails_its_position(k: Command, p: Seq<Response>, r: Response, q: Seq<Response>)
    requires
        no_completion(p),
        !(r is Done),
        fault(k, r),
    ensures
        answered(k, command_body(p.push(r) + q)) == answered(k, p).push(r) + answered(
            k,
            command_body(q),
        ),
        k == Command::Names ==> forall|o: Result<Name, Error>|
            name_item(r, o) <==> o == Err::<Name, Error>(Error::Unexpected(r)),
        k == Command::Fetches ==> forall|o: Result<Fetch, Error>|
            fetch_item(r, o) <==> o == Err::<Fetch, Error>(Error::Unexpected(r)),
        k == Command::Expunge ==> forall|o: Result<u32, Error>|
            expunge_item(r, o) <==> o == Err::<u32, Error>(Error::Unexpected(r)),
{
    let pr = p.push(r);
    assert(no_completion(pr)) by {
        assert forall|i: int| 0 <= i < pr.len() implies !(#[trigger] pr[i] is Done) by {
            if i < p.len() {
                assert(pr[i] == p[i]);
            }
        }
    }
    lemma_body_prefix(pr, q);
    lemma_answered_concat(k, pr, command_body(q));
    assert(pr.drop_last() =~= p);
    assert(answered(k, pr) == answered(k, p).push(r));
}

/// A message whose attributes hold a `UID` but no flags and no size has
/// the uid of its last `UID` attribute, no flags and no size.
pub proof fn fetch_uid_only(attrs: Seq<AttributeValue>, i: int, u: u32)
    requires
        0 <= i < attrs.len(),
        attrs[i] == AttributeValue::Uid(u),
        forall|j: int| i < j < attrs.len() ==> !(#[trigger] attrs[j] is Uid),
        forall|j: int|
            0 <= j < attrs.len() ==> !(#[trigger] attrs[j] is Flags) && !(attrs[j] is Rfc822Size),
    ensures
        fetch_uid(attrs) == Some(u),
        fetch_flags(attrs) == Seq::<String>::empty(),
        fetch_size(attrs) is None,
    decreases attrs.len(),
{
    let p = attrs.drop_last();
    assert forall|j: int| 0 <= j < p.len() implies !(#[trigger] p[j] is Flags) && !(
    p[j] is Rfc822Size) by {
        assert(p[j] == attrs[j]);
    }
    if i < attrs.len() - 1 {
        assert(!(attrs[attrs.len() - 1] is Uid));
        assert forall|j: int| i < j < p.len() implies !(#[trigger] p[j] is Uid) by {
            assert(p[j] == attrs[j]);
        }
        fetch_uid_only(p, i, u);
    } else {
        no_flags_no_size(p);
    }
}

proof fn no_flags_no_size(attrs: Seq<AttributeValue>)
    requires
        forall|j: int|
            0 <= j < attrs.len() ==> !(#[trigger] attrs[j] is Flags) && !(attrs[j] is Rfc822Size),
    ensures
        fetch_flags(attrs) == Seq::<String>::empty(),
        fetch_size(attrs) is None,
    decreases attrs.len(),
{
    if attrs.len() > 0 {
        let p = attrs.drop_last();
        assert forall|j: int| 0 <= j < p.len() implies !(#[trigger] p[j] is Flags) && !(
        p[j] is Rfc822Size) by {
            assert(p[j] == attrs[j]);
        }
        no_flags_no_size(p);
    }
}

} // verus!
