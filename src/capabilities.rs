use vstd::prelude::*;
use crate::types::{Capability, Response};

verus! {

/// A character with ASCII upper case folded to lower case, as a code point.
pub open spec fn fold(c: char) -> u32 {
    if 'A' <= c && c <= 'Z' {
        ((c as u32) + 32) as u32
    } else {
        c as u32
    }
}

pub open spec fn folded(s: Seq<char>) -> Seq<u32> {
    Seq::new(s.len(), |i: int| fold(s[i]))
}

/// What tells two capabilities apart: their kind and their ASCII-case-folded
/// text. Capabilities with equal keys are the same capability.
pub open spec fn cap_key(c: Capability) -> (nat, Seq<u32>) {
    match c {
        Capability::Imap4rev1 => (0, seq![]),
        Capability::Auth(s) => (1, folded(s@)),
        Capability::Atom(s) => (2, folded(s@)),
    }
}

/// The capability that a token names: `IMAP4rev1` and the `AUTH=` prefix are
/// recognised in any ASCII case.
pub open spec fn token_key(t: Seq<char>) -> (nat, Seq<u32>) {
    if folded(t) == folded("IMAP4rev1"@) {
        (0, seq![])
    } else if t.len() > 5 && folded(t.take(5)) == folded("AUTH="@) {
        (1, folded(t.skip(5)))
    } else {
        (2, folded(t))
    }
}

/// The keys of the capabilities `cs`.
pub open spec fn cap_set(cs: Seq<Capability>) -> Set<(nat, Seq<u32>)> {
    Set::new(|key: (nat, Seq<u32>)| exists|i: int| 0 <= i < cs.len() && cap_key(cs[i]) == key)
}

/// The keys of every capability that the records `s` announce.
pub open spec fn announced(s: Seq<Response>) -> Set<(nat, Seq<u32>)>
    decreases s.len(),
{
    if s.len() == 0 {
        Set::empty()
    } else {
        match s.last() {
            Response::Capabilities(cs) => announced(s.drop_last()).union(cap_set(cs@)),
            _ => announced(s.drop_last()),
        }
    }
}

pub proof fn lemma_cap_set_push(cs: Seq<Capability>, c: Capability)
    ensures
        cap_set(cs.push(c)) == cap_set(cs).insert(cap_key(c)),
{
    assert forall|key: (nat, Seq<u32>)| #[trigger]
        cap_set(cs.push(c)).contains(key) <==> cap_set(cs).insert(cap_key(c)).contains(key) by {
        if cap_set(cs.push(c)).contains(key) {
            let i = choose|i: int| 0 <= i < cs.push(c).len() && cap_key(cs.push(c)[i]) == key;
            if i < cs.len() {
                assert(cap_key(cs[i]) == key);
            }
        }
        if cap_set(cs).contains(key) {
            let i = choose|i: int| 0 <= i < cs.len() && cap_key(cs[i]) == key;
            assert(cap_key(cs.push(c)[i]) == key);
        }
        if key == cap_key(c) {
            assert(cap_key(cs.push(c)[cs.len() as int]) == key);
        }
    }
    assert(cap_set(cs.push(c)) =~= cap_set(cs).insert(cap_key(c)));
}

fn fold_char(c: char) -> (r: u32)
    ensures
        r == fold(c),
{
    if 'A' <= c && c <= 'Z' {
        (c as u32) + 32
    } else {
        c as u32
    }
}

/// Whether two strings are equal but for ASCII case.
pub fn eq_ignore_case(a: &str, b: &str) -> (r: bool)
    ensures
        r == (folded(a@) == folded(b@)),
{
    let n = a.unicode_len();
    if n != b.unicode_len() {
        assert(folded(a@).len() != folded(b@).len());
        return false;
    }
    let mut i: usize = 0;
    while i < n
        invariant
            n == a@.len(),
            n == b@.len(),
            i <= n,
            forall|j: int| 0 <= j < i ==> fold(#[trigger] a@[j]) == fold(b@[j]),
        decreases n - i,
    {
        if fold_char(a.get_char(i)) != fold_char(b.get_char(i)) {
            assert(folded(a@)[i as int] != folded(b@)[i as int]);
            return false;
        }
        i += 1;
    }
    assert(folded(a@) =~= folded(b@));
    true
}

/// Whether two capabilities have the same key.
pub fn same_capability(a: &Capability, b: &Capability) -> (r: bool)
    ensures
        r == (cap_key(*a) == cap_key(*b)),
{
    match (a, b) {
        (Capability::Imap4rev1, Capability::Imap4rev1) => true,
        (Capability::Auth(x), Capability::Auth(y)) => eq_ignore_case(x.as_str(), y.as_str()),
        (Capability::Atom(x), Capability::Atom(y)) => eq_ignore_case(x.as_str(), y.as_str()),
        _ => false,
    }
}

/// The capabilities a server announced, each once: two that differ only in
/// ASCII case are one.
#[derive(Debug)]
pub struct Capabilities {
    caps: Vec<Capability>,
}

impl Capabilities {
    pub closed spec fn keys(&self) -> Seq<(nat, Seq<u32>)> {
        Seq::new(self.caps@.len(), |i: int| cap_key(self.caps@[i]))
    }

    /// No capability is held twice.
    pub closed spec fn wf(&self) -> bool {
        self.keys().no_duplicates()
    }

    pub closed spec fn view(&self) -> Set<(nat, Seq<u32>)> {
        cap_set(self.caps@)
    }

    pub fn new() -> (r: Capabilities)
        ensures
            r.wf(),
            r.view() == Set::<(nat, Seq<u32>)>::empty(),
    {
        let r = Capabilities { caps: Vec::new() };
        assert(r.view() =~= Set::<(nat, Seq<u32>)>::empty());
        r
    }

    /// Adds a capability; one with the same key is kept as it was.
    pub fn insert(&mut self, c: Capability)
        requires
            old(self).wf(),
        ensures
            final(self).wf(),
            final(self).view() == old(self).view().insert(cap_key(c)),
    {
        let mut i: usize = 0;
        while i < self.caps.len()
            invariant
                self.wf(),
                i <= self.caps@.len(),
                forall|j: int| 0 <= j < i ==> cap_key(#[trigger] self.caps@[j]) != cap_key(c),
            decreases self.caps@.len() - i,
        {
            if same_capability(&self.caps[i], &c) {
                assert(self.view().contains(cap_key(c))) by {
                    assert(cap_key(self.caps@[i as int]) == cap_key(c));
                }
                assert(self.view().insert(cap_key(c)) =~= self.view());
                return;
            }
            i += 1;
        }
        let ghost before = self.caps@;
        proof {
            lemma_cap_set_push(before, c);
        }
        self.caps.push(c);
        assert(self.keys() =~= old(self).keys().push(cap_key(c)));
        assert(self.wf()) by {
            assert forall|p: int, q: int|
                0 <= p < self.keys().len() && 0 <= q < self.keys().len() && p != q implies
                self.keys()[p] != self.keys()[q] by {
                if p < before.len() && q < before.len() {
                    assert(old(self).keys()[p] != old(self).keys()[q]);
                } else if p < before.len() {
                    assert(cap_key(before[p]) != cap_key(c));
                } else if q < before.len() {
                    assert(cap_key(before[q]) != cap_key(c));
                }
            }
        }
    }

    /// Adds every capability of `cs`.
    pub fn extend(&mut self, cs: Vec<Capability>)
        requires
            old(self).wf(),
        ensures
            final(self).wf(),
            final(self).view() == old(self).view().union(cap_set(cs@)),
    {
        let ghost all = cs@;
        let mut cs = cs;
        let mut rest: Vec<Capability> = Vec::new();
        while cs.len() > 0
            invariant
                cs@.len() + rest@.len() == all.len(),
                cs@ == all.take(cs@.len() as int),
                forall|j: int| 0 <= j < rest@.len() ==> #[trigger] rest@[j] == all[all.len() - 1 - j],
            decreases cs.len(),
        {
            let x = cs.pop().unwrap();
            rest.push(x);
        }
        // `rest` is `all` reversed; insert from its back to keep the announced order.
        let ghost mut done: Seq<Capability> = seq![];
        while rest.len() > 0
            invariant
                self.wf(),
                done.len() + rest@.len() == all.len(),
                done == all.take(done.len() as int),
                forall|j: int| 0 <= j < rest@.len() ==> #[trigger] rest@[j] == all[all.len() - 1 - j],
                self.view() == old(self).view().union(cap_set(done)),
            decreases rest.len(),
        {
            let c = rest.pop().unwrap();
            proof {
                assert(c == all[done.len() as int]);
                lemma_cap_set_push(done, c);
                assert(all.take(done.len() + 1 as int) =~= done.push(c));
            }
            self.insert(c);
            proof {
                done = done.push(c);
                assert(self.view() =~= old(self).view().union(cap_set(done)));
            }
        }
        assert(done =~= all);
    }

    /// The number of capabilities.
    pub fn len(&self) -> (r: usize)
        ensures
            self.wf() ==> r == self.view().len(),
    {
        proof {
            if self.wf() {
                let keys = self.keys();
                assert(keys.no_duplicates());
                keys.unique_seq_to_set();
                assert(self.keys().to_set() =~= self.view()) by {
                    assert forall|key| #[trigger] self.view().contains(key) implies self.keys().to_set().contains(key) by {
                        let i = choose|i: int| 0 <= i < self.caps@.len() && cap_key(self.caps@[i]) == key;
                        assert(self.keys()[i] == key);
                    }
                }
            }
        }
        self.caps.len()
    }

    /// Whether the capability that `token` names is held.
    pub fn has_str(&self, token: &str) -> (r: bool)
        ensures
            r == self.view().contains(token_key(token@)),
    {
        let c = if eq_ignore_case(token, "IMAP4rev1") {
            Capability::Imap4rev1
        } else {
            let n = token.unicode_len();
            if n > 5 && eq_ignore_case(token.substring_char(0, 5), "AUTH=") {
                Capability::Auth(token.substring_char(5, n).to_owned())
            } else {
                Capability::Atom(token.to_owned())
            }
        };
        proof {
            if token@.len() > 5 {
                assert(token@.subrange(0, 5) =~= token@.take(5));
                assert(token@.subrange(5, token@.len() as int) =~= token@.skip(5));
            }
        }
        self.has(&c)
    }

    /// Whether a capability with the same key as `c` is held.
    pub fn has(&self, c: &Capability) -> (r: bool)
        ensures
            r == self.view().contains(cap_key(*c)),
    {
        let mut i: usize = 0;
        while i < self.caps.len()
            invariant
                i <= self.caps@.len(),
                forall|j: int| 0 <= j < i ==> cap_key(#[trigger] self.caps@[j]) != cap_key(*c),
            decreases self.caps@.len() - i,
        {
            if same_capability(&self.caps[i], c) {
                return true;
            }
            i += 1;
        }
        false
    }
}

} // verus!
