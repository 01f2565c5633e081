//! The subscriber registry: for each event kind, the subscribers registered
//! for it, in the order of registration.
use std::collections::HashMap;
use vstd::prelude::*;

verus! {

broadcast use vstd::std_specs::hash::group_hash_axioms;

/// The key that identifies the kind of an event.
pub type EventKind = u64;

/// The identity of a subscriber instance: two registrations are of the same
/// subscriber exactly when their identities are equal.
pub type SubscriberId = u64;

/// The subscribers registered for `kind` in the registry `m`, in order;
/// empty when none is.
pub open spec fn subscribers_of(m: Map<EventKind, Seq<SubscriberId>>, kind: EventKind) -> Seq<
    SubscriberId,
> {
    if m.contains_key(kind) {
        m[kind]
    } else {
        Seq::empty()
    }
}

/// `i` is the position of the first occurrence of `id` in `s`.
pub open spec fn is_first_index(s: Seq<SubscriberId>, id: SubscriberId, i: int) -> bool {
    &&& 0 <= i < s.len()
    &&& s[i] == id
    &&& forall|j: int| 0 <= j < i ==> s[j] != id
}

/// `s` without its first occurrence of `id`; `s` itself when `id` is absent.
pub open spec fn remove_first(s: Seq<SubscriberId>, id: SubscriberId) -> Seq<SubscriberId> {
    if s.contains(id) {
        s.remove(choose|i: int| is_first_index(s, id, i))
    } else {
        s
    }
}

/// The registry after `id` is registered for `kind`: it is appended to the
/// kind's list, also when it is already there.
pub open spec fn register_spec(
    m: Map<EventKind, Seq<SubscriberId>>,
    kind: EventKind,
    id: SubscriberId,
) -> Map<EventKind, Seq<SubscriberId>> {
    m.insert(kind, subscribers_of(m, kind).push(id))
}

/// The registry after `id` is unregistered from `kind`: its first entry in
/// the kind's list is removed, and a list left empty is dropped.
pub open spec fn unregister_spec(
    m: Map<EventKind, Seq<SubscriberId>>,
    kind: EventKind,
    id: SubscriberId,
) -> Map<EventKind, Seq<SubscriberId>> {
    let rest = remove_first(subscribers_of(m, kind), id);
    if rest.len() == 0 {
        m.remove(kind)
    } else {
        m.insert(kind, rest)
    }
}

/// Every kind in the registry has at least one subscriber.
pub open spec fn no_empty_lists(m: Map<EventKind, Seq<SubscriberId>>) -> bool {
    forall|k: EventKind| #[trigger] m.contains_key(k) ==> m[k].len() > 0
}

/// The first occurrence of `id` is unique, so removing it is well defined.
pub proof fn lemma_first_index_unique(s: Seq<SubscriberId>, id: SubscriberId, i: int, j: int)
    requires
        is_first_index(s, id, i),
        is_first_index(s, id, j),
    ensures
        i == j,
{
}

/// Removing the entry at the first occurrence of `id` is `remove_first`.
pub proof fn lemma_remove_first_at(s: Seq<SubscriberId>, id: SubscriberId, i: int)
    requires
        is_first_index(s, id, i),
    ensures
        remove_first(s, id) == s.remove(i),
{
    assert(s.contains(id));
    let c = choose|k: int| is_first_index(s, id, k);
    assert(is_first_index(s, id, c));
    lemma_first_index_unique(s, id, i, c);
}

/// Position of the first entry of `list` equal to `target`.
pub fn index_of_subscriber(list: &Vec<SubscriberId>, target: SubscriberId) -> (r: Option<usize>)
    ensures
        match r {
            Some(i) => is_first_index(list@, target, i as int),
            None => !list@.contains(target),
        },
{
    let mut i: usize = 0;
    while i < list.len()
        invariant
            i <= list@.len(),
            forall|j: int| 0 <= j < i ==> list@[j] != target,
        decreases list@.len() - i,
    {
        if list[i] == target {
            return Some(i);
        }
        i = i + 1;
    }
    None
}

/// A mapping from event kind to the subscribers registered for it.
pub struct Registry {
    lists: HashMap<EventKind, Vec<SubscriberId>>,
}

impl Registry {
    /// The registry as a map from kind to its subscribers in order.
    pub closed spec fn view(&self) -> Map<EventKind, Seq<SubscriberId>> {
        self.lists@.map_values(|v: Vec<SubscriberId>| v@)
    }

    /// The registry is well formed: no kind is kept with an empty list.
    pub open spec fn wf(&self) -> bool {
        no_empty_lists(self@)
    }

    /// An empty registry.
    pub fn new() -> (r: Self)
        ensures
            r.wf(),
            r@ == Map::<EventKind, Seq<SubscriberId>>::empty(),
    {
        let r = Registry { lists: HashMap::new() };
        assert(r@ =~= Map::<EventKind, Seq<SubscriberId>>::empty());
        r
    }

    /// Appends `id` to the list of `kind`, creating the list if absent.
    pub fn register(&mut self, kind: EventKind, id: SubscriberId)
        requires
            old(self).wf(),
        ensures
            final(self).wf(),
            final(self)@ == register_spec(old(self)@, kind, id),
    {
        let ghost before = self@;
        let mut list = match self.lists.remove(&kind) {
            Some(v) => v,
            None => Vec::new(),
        };
        assert(list@ == subscribers_of(before, kind));
        list.push(id);
        self.lists.insert(kind, list);
        assert(self@ =~= register_spec(before, kind, id));
    }

    /// Removes the first entry of `id` from the list of `kind`; does nothing
    /// when `id` is not registered for `kind`.
    pub fn unregister(&mut self, kind: EventKind, id: SubscriberId)
        requires
            old(self).wf(),
        ensures
            final(self).wf(),
            final(self)@ == unregister_spec(old(self)@, kind, id),
    {
        let ghost before = self@;
        let mut list = match self.lists.remove(&kind) {
            Some(v) => v,
            None => {
                assert(self@ =~= before);
                assert(before =~= unregister_spec(before, kind, id));
                return;
            },
        };
        assert(list@ == subscribers_of(before, kind));
        match index_of_subscriber(&list, id) {
            Some(i) => {
                proof {
                    lemma_remove_first_at(list@, id, i as int);
                }
                list.remove(i);
            },
            None => {},
        }
        assert(list@ == remove_first(subscribers_of(before, kind), id));
        if list.len() > 0 {
            self.lists.insert(kind, list);
            assert(self@ =~= unregister_spec(before, kind, id));
        } else {
            assert(self@ =~= unregister_spec(before, kind, id));
        }
    }

    /// A snapshot of the subscribers of `kind`, in order.
    pub fn lookup(&self, kind: EventKind) -> (r: Vec<SubscriberId>)
        ensures
            r@ == subscribers_of(self@, kind),
    {
        match self.lists.get(&kind) {
            Some(v) => {
                let r = v.clone();
                assert(r@ =~= v@);
                r
            },
            None => Vec::new(),
        }
    }
}

} // verus!
