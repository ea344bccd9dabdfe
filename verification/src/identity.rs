//! Check identities: the stable `(name, kind) -> id` mapping, modelled as an
//! in-process store with the exact semantics the datastore's unique
//! constraint enforces, and the idempotence law of materialization.

use crate::check::Kind;
use vstd::prelude::*;

verus! {

/// A materialized check identity: a stable id for one `(name, kind)` key.
#[derive(Clone, Debug)]
pub struct Identity {
    pub id: u64,
    pub name: String,
    pub kind: Kind,
}

/// Well-formedness of an identity list: no two entries share an id, and no
/// two entries share a `(name, kind)` key.
pub open spec fn identities_wf(s: Seq<Identity>) -> bool {
    forall|i: int, j: int|
        0 <= i < j < s.len() ==> (#[trigger] s[i]).id != (#[trigger] s[j]).id && !(s[i].name@
            == s[j].name@ && s[i].kind == s[j].kind)
}

/// The first identity with the given key, if any.
pub open spec fn spec_find(s: Seq<Identity>, name: Seq<char>, kind: Kind) -> Option<Identity>
    decreases s.len(),
{
    if s.len() == 0 {
        None
    } else if s[0].name@ == name && s[0].kind == kind {
        Some(s[0])
    } else {
        spec_find(s.skip(1), name, kind)
    }
}

/// How many identities carry the given key.
pub open spec fn count_key(s: Seq<Identity>, name: Seq<char>, kind: Kind) -> nat
    decreases s.len(),
{
    if s.len() == 0 {
        0
    } else {
        count_key(s.drop_last(), name, kind) + if s.last().name@ == name && s.last().kind
            == kind {
            1nat
        } else {
            0nat
        }
    }
}

/// What one materialization step does to an identity list: an existing key
/// is left alone and hands back its id; an absent key is given exactly one
/// new entry carrying the returned id.
pub open spec fn materialize_step(
    pre: Seq<Identity>,
    post: Seq<Identity>,
    name: Seq<char>,
    kind: Kind,
    id: u64,
) -> bool {
    match spec_find(pre, name, kind) {
        Some(e) => post == pre && id == e.id,
        None => {
            &&& post.len() == pre.len() + 1
            &&& post.take(pre.len() as int) == pre
            &&& post.last().id == id
            &&& post.last().name@ == name
            &&& post.last().kind == kind
        },
    }
}

/// The in-process identity store: the reference semantics of the `(name,
/// kind) -> id` table. Ids are handed out from a counter that is never
/// reused.
#[derive(Clone, Debug)]
pub struct IdentityStore {
    pub entries: Vec<Identity>,
    pub next_id: u64,
}

impl IdentityStore {
    /// Every entry is uniquely keyed and its id lies below the counter.
    pub open spec fn wf(&self) -> bool {
        &&& identities_wf(self.entries@)
        &&& forall|i: int| 0 <= i < self.entries@.len() ==> (#[trigger] self.entries@[i]).id
            < self.next_id
    }

    /// An empty store.
    pub fn new() -> (r: Self)
        ensures
            r.wf(),
            r.entries@ == Seq::<Identity>::empty(),
            r.next_id == 0,
    {
        IdentityStore { entries: Vec::new(), next_id: 0 }
    }

    /// Looks the key up, scanning in order.
    pub fn find(&self, name: &str, kind: Kind) -> (r: Option<u64>)
        ensures
            r == match spec_find(self.entries@, name@, kind) {
                Some(e) => Some(e.id),
                None => None::<u64>,
            },
    {
        let mut i: usize = 0;
        proof {
            assert(self.entries@.skip(0) =~= self.entries@);
        }
        while i < self.entries.len()
            invariant
                i <= self.entries@.len(),
                spec_find(self.entries@, name@, kind) == spec_find(
                    self.entries@.skip(i as int),
                    name@,
                    kind,
                ),
            decreases self.entries@.len() - i,
        {
            proof {
                assert(self.entries@.skip(i as int)[0] == self.entries@[i as int]);
                assert(self.entries@.skip(i as int).skip(1) =~= self.entries@.skip(i + 1));
            }
            let e = &self.entries[i];
            if crate::text::str_eq(e.name.as_str(), name) && e.kind == kind {
                return Some(e.id);
            }
            i += 1;
        }
        proof {
            assert(self.entries@.skip(i as int).len() == 0);
        }
        None
    }

    /// Idempotently obtains or creates the id for `(name, kind)`: an
    /// existing key hands back its id and changes nothing; an absent key is
    /// inserted once, under a fresh id.
    pub fn materialize(&mut self, name: &str, kind: Kind) -> (id: u64)
        requires
            old(self).wf(),
            old(self).next_id < u64::MAX,
        ensures
            final(self).wf(),
            materialize_step(old(self).entries@, final(self).entries@, name@, kind, id),
            spec_find(final(self).entries@, name@, kind) matches Some(e) && e.id == id,
            old(self).next_id <= final(self).next_id <= old(self).next_id + 1,
    {
        match self.find(name, kind) {
            Some(id) => {
                proof {
                    lemma_find_is_member(self.entries@, name@, kind);
                }
                id
            },
            None => {
                let id = self.next_id;
                let entry = Identity { id, name: name.to_owned(), kind };
                self.entries.push(entry);
                self.next_id = self.next_id + 1;
                proof {
                    let pre = old(self).entries@;
                    let post = self.entries@;
                    assert(post.take(pre.len() as int) =~= pre);
                    assert(post =~= pre.push(post.last()));
                    lemma_find_absent_push(pre, post.last(), name@, kind);
                    lemma_find_none_no_member(pre, name@, kind);
                    assert forall|i: int, j: int| 0 <= i < j < post.len() implies (
                    #[trigger] post[i]).id != (#[trigger] post[j]).id && !(post[i].name@
                        == post[j].name@ && post[i].kind == post[j].kind) by {
                        assert(post[i] == pre[i]);
                        if j < pre.len() {
                            assert(post[j] == pre[j]);
                        } else {
                            assert(post[j] == post.last());
                        }
                    }
                }
                id
            },
        }
    }
}

/// A found identity is a member of the list.
proof fn lemma_find_is_member(s: Seq<Identity>, name: Seq<char>, kind: Kind)
    requires
        spec_find(s, name, kind) is Some,
    ensures
        exists|i: int|
            0 <= i < s.len() && s[i] == spec_find(s, name, kind)->Some_0 && s[i].name@ == name
                && s[i].kind == kind,
    decreases s.len(),
{
    if s.len() == 0 {
    } else if s[0].name@ == name && s[0].kind == kind {
        assert(s[0] == spec_find(s, name, kind)->Some_0);
    } else {
        lemma_find_is_member(s.skip(1), name, kind);
        let j = choose|j: int|
            0 <= j < s.skip(1).len() && s.skip(1)[j] == spec_find(s.skip(1), name, kind)->Some_0
                && s.skip(1)[j].name@ == name && s.skip(1)[j].kind == kind;
        assert(s[j + 1] == s.skip(1)[j]);
    }
}

/// Appending a fresh entry to a list in which its key is absent makes the
/// appended entry the one `spec_find` returns.
proof fn lemma_find_absent_push(s: Seq<Identity>, e: Identity, name: Seq<char>, kind: Kind)
    requires
        spec_find(s, name, kind) is None,
        e.name@ == name,
        e.kind == kind,
    ensures
        spec_find(s.push(e), name, kind) == Some(e),
    decreases s.len(),
{
    if s.len() == 0 {
        assert(s.push(e)[0] == e);
    } else {
        assert(s.push(e)[0] == s[0]);
        assert(s.push(e).skip(1) =~= s.skip(1).push(e));
        lemma_find_absent_push(s.skip(1), e, name, kind);
    }
}

/// A list in which `spec_find` misses the key holds no entry with the key.
proof fn lemma_find_none_no_member(s: Seq<Identity>, name: Seq<char>, kind: Kind)
    requires
        spec_find(s, name, kind) is None,
    ensures
        forall|i: int|
            0 <= i < s.len() ==> !((#[trigger] s[i]).name@ == name && s[i].kind == kind),
    decreases s.len(),
{
    if s.len() > 0 {
        lemma_find_none_no_member(s.skip(1), name, kind);
        assert forall|i: int|
            0 <= i < s.len() implies !((#[trigger] s[i]).name@ == name && s[i].kind == kind) by {
            if i > 0 {
                assert(s.skip(1)[i - 1] == s[i]);
            }
        }
    }
}

/// When a key is present in a well-formed list, it is present exactly once.
proof fn lemma_wf_count_key(s: Seq<Identity>, name: Seq<char>, kind: Kind)
    requires
        identities_wf(s),
    ensures
        spec_find(s, name, kind) is Some ==> count_key(s, name, kind) == 1,
        spec_find(s, name, kind) is None ==> count_key(s, name, kind) == 0,
    decreases s.len(),
{
    if s.len() == 0 {
    } else {
        let tail = s.drop_last();
        assert(identities_wf(tail)) by {
            assert forall|i: int, j: int| 0 <= i < j < tail.len() implies (
            #[trigger] tail[i]).id != (#[trigger] tail[j]).id && !(tail[i].name@ == tail[j].name@
                && tail[i].kind == tail[j].kind) by {
                assert(tail[i] == s[i]);
                assert(tail[j] == s[j]);
            }
        }
        lemma_wf_count_key(tail, name, kind);
        lemma_find_last(s, name, kind);
        let last_matches = s.last().name@ == name && s.last().kind == kind;
        if spec_find(tail, name, kind) is Some && last_matches {
            lemma_find_is_member(tail, name, kind);
            let i = choose|i: int|
                0 <= i < tail.len() && tail[i] == spec_find(tail, name, kind)->Some_0
                    && tail[i].name@ == name && tail[i].kind == kind;
            assert(s[i] == tail[i]);
            assert(s[s.len() - 1] == s.last());
            assert(false);
        }
    }
}

/// `spec_find` over a list related to `spec_find` over the list without its
/// last element.
proof fn lemma_find_last(s: Seq<Identity>, name: Seq<char>, kind: Kind)
    requires
        s.len() > 0,
    ensures
        spec_find(s, name, kind) is Some <==> spec_find(s.drop_last(), name, kind) is Some || (
        s.last().name@ == name && s.last().kind == kind),
    decreases s.len(),
{
    if s.len() == 1 {
        assert(s.drop_last().len() == 0);
    } else {
        assert(s.skip(1).drop_last() =~= s.drop_last().skip(1));
        assert(s.skip(1).last() == s.last());
        assert(s.drop_last()[0] == s[0]);
        lemma_find_last(s.skip(1), name, kind);
    }
}

/// Idempotence of identity materialization: two successive materialize
/// steps for one key return the same id, the second step changes nothing,
/// and exactly one identity for the key exists afterwards.
pub proof fn lemma_materialize_idempotent(
    s0: Seq<Identity>,
    s1: Seq<Identity>,
    s2: Seq<Identity>,
    name: Seq<char>,
    kind: Kind,
    id1: u64,
    id2: u64,
)
    requires
        identities_wf(s1),
        materialize_step(s0, s1, name, kind, id1),
        spec_find(s1, name, kind) matches Some(e) && e.id == id1,
        materialize_step(s1, s2, name, kind, id2),
    ensures
        id2 == id1,
        s2 == s1,
        count_key(s1, name, kind) == 1,
{
    lemma_wf_count_key(s1, name, kind);
}

} // verus!
