//! What holds of the bus over several operations: who receives the events of
//! a kind after a history of registrations and removals, and what a burst of
//! publications leaves in the bounded queue.
//!
//! Each dispatch hands an event to exactly the subscribers that the registry
//! lists for its kind at that moment (see `EventBus::next_dispatch`), so the
//! statements below about the registry are statements about deliveries.
use crate::bus::offer_spec;
use crate::registry::{
    is_first_index, register_spec, remove_first, subscribers_of, unregister_spec, EventKind,
    SubscriberId,
};
use vstd::prelude::*;

verus! {

/// A change to the registry.
pub enum RegistryOp {
    Register(EventKind, SubscriberId),
    Unregister(EventKind, SubscriberId),
}

/// The registry after one change.
pub open spec fn apply_op(
    m: Map<EventKind, Seq<SubscriberId>>,
    op: RegistryOp,
) -> Map<EventKind, Seq<SubscriberId>> {
    match op {
        RegistryOp::Register(k, s) => register_spec(m, k, s),
        RegistryOp::Unregister(k, s) => unregister_spec(m, k, s),
    }
}

/// The registry after a sequence of changes, applied first to last.
pub open spec fn apply_ops(
    m: Map<EventKind, Seq<SubscriberId>>,
    ops: Seq<RegistryOp>,
) -> Map<EventKind, Seq<SubscriberId>>
    decreases ops.len(),
{
    if ops.len() == 0 {
        m
    } else {
        apply_op(apply_ops(m, ops.drop_last()), ops.last())
    }
}

/// The registry after each of `ids` is registered for `kind`, in order.
pub open spec fn register_each(
    m: Map<EventKind, Seq<SubscriberId>>,
    kind: EventKind,
    ids: Seq<SubscriberId>,
) -> Map<EventKind, Seq<SubscriberId>>
    decreases ids.len(),
{
    if ids.len() == 0 {
        m
    } else {
        register_spec(register_each(m, kind, ids.drop_last()), kind, ids.last())
    }
}

/// How many deliveries a dispatch to the list `s` owes subscriber `id`.
pub open spec fn deliveries_to(s: Seq<SubscriberId>, id: SubscriberId) -> nat
    decreases s.len(),
{
    if s.len() == 0 {
        0
    } else {
        deliveries_to(s.drop_last(), id) + if s.last() == id {
            1nat
        } else {
            0nat
        }
    }
}

/// `id` occurs at most once in `s`.
pub open spec fn at_most_once(s: Seq<SubscriberId>, id: SubscriberId) -> bool {
    forall|i: int, j: int|
        0 <= i < s.len() && 0 <= j < s.len() && s[i] == id && s[j] == id ==> i == j
}

/// The queue after each of `items` is offered to it in turn.
pub open spec fn offer_each<T>(queue: Seq<T>, capacity: nat, items: Seq<T>) -> Seq<T>
    decreases items.len(),
{
    if items.len() == 0 {
        queue
    } else {
        offer_spec(offer_each(queue, capacity, items.drop_last()), capacity, items.last())
    }
}

/// A sequence that holds `id` has a first occurrence of it.
pub proof fn lemma_first_index_exists(s: Seq<SubscriberId>, id: SubscriberId)
    requires
        s.contains(id),
    ensures
        exists|i: int| is_first_index(s, id, i),
    decreases s.len(),
{
    if s[0] == id {
        assert(is_first_index(s, id, 0));
    } else {
        let j = choose|j: int| 0 <= j < s.len() && s[j] == id;
        let t = s.drop_first();
        assert(t[j - 1] == id);
        lemma_first_index_exists(t, id);
        let i = choose|i: int| is_first_index(t, id, i);
        assert forall|k: int| 0 <= k < i + 1 implies s[k] != id by {
            if k > 0 {
                assert(s[k] == t[k - 1]);
            }
        }
        assert(is_first_index(s, id, i + 1));
    }
}

/// The entry that `remove_first` takes out is the first occurrence.
proof fn lemma_remove_first_shape(s: Seq<SubscriberId>, id: SubscriberId) -> (i: int)
    requires
        s.contains(id),
    ensures
        is_first_index(s, id, i),
        remove_first(s, id) == s.remove(i),
{
    lemma_first_index_exists(s, id);
    choose|i: int| is_first_index(s, id, i)
}

/// Removing the first entry of `other` keeps every entry of `id != other`.
proof fn lemma_remove_first_keeps(s: Seq<SubscriberId>, other: SubscriberId, id: SubscriberId)
    requires
        s.contains(id),
        id != other,
    ensures
        remove_first(s, other).contains(id),
{
    if s.contains(other) {
        let i = lemma_remove_first_shape(s, other);
        let j = choose|j: int| 0 <= j < s.len() && s[j] == id;
        let r = s.remove(i);
        if j < i {
            assert(r[j] == id);
        } else {
            assert(r[j - 1] == id);
        }
    }
}

/// Removing an entry never adds one.
proof fn lemma_remove_first_subset(s: Seq<SubscriberId>, other: SubscriberId, id: SubscriberId)
    requires
        !s.contains(id),
    ensures
        !remove_first(s, other).contains(id),
{
    if s.contains(other) {
        let i = lemma_remove_first_shape(s, other);
        let r = s.remove(i);
        assert forall|j: int| 0 <= j < r.len() implies r[j] != id by {
            if j < i {
                assert(r[j] == s[j]);
            } else {
                assert(r[j] == s[j + 1]);
            }
        }
    }
}

/// A registration stays through any change but its own removal.
proof fn lemma_op_keeps(
    m: Map<EventKind, Seq<SubscriberId>>,
    kind: EventKind,
    id: SubscriberId,
    op: RegistryOp,
)
    requires
        subscribers_of(m, kind).contains(id),
        op != RegistryOp::Unregister(kind, id),
    ensures
        subscribers_of(apply_op(m, op), kind).contains(id),
{
    let s = subscribers_of(m, kind);
    match op {
        RegistryOp::Register(k, x) => {
            if k == kind {
                let j = choose|j: int| 0 <= j < s.len() && s[j] == id;
                assert(s.push(x)[j] == id);
            }
        },
        RegistryOp::Unregister(k, x) => {
            if k == kind {
                lemma_remove_first_keeps(s, x, id);
            }
        },
    }
}

/// An absent registration stays absent through any change but its own
/// registration.
proof fn lemma_op_keeps_out(
    m: Map<EventKind, Seq<SubscriberId>>,
    kind: EventKind,
    id: SubscriberId,
    op: RegistryOp,
)
    requires
        !subscribers_of(m, kind).contains(id),
        op != RegistryOp::Register(kind, id),
    ensures
        !subscribers_of(apply_op(m, op), kind).contains(id),
{
    let s = subscribers_of(m, kind);
    match op {
        RegistryOp::Register(k, x) => {
            if k == kind {
                assert forall|j: int| 0 <= j < s.push(x).len() implies s.push(x)[j] != id by {
                    if j < s.len() {
                        assert(s.push(x)[j] == s[j]);
                    }
                }
            }
        },
        RegistryOp::Unregister(k, x) => {
            if k == kind {
                lemma_remove_first_subset(s, x, id);
            }
        },
    }
}

/// Delivery to the registered: once `id` is registered for `kind`, every
/// event of that kind dispatched later is owed to it, whatever other
/// registrations and removals come in between, as long as this registration
/// is not removed.
pub proof fn law_registered_receives(
    m: Map<EventKind, Seq<SubscriberId>>,
    kind: EventKind,
    id: SubscriberId,
    later: Seq<RegistryOp>,
)
    requires
        !later.contains(RegistryOp::Unregister(kind, id)),
    ensures
        subscribers_of(apply_ops(register_spec(m, kind, id), later), kind).contains(id),
    decreases later.len(),
{
    let m1 = register_spec(m, kind, id);
    if later.len() == 0 {
        assert(subscribers_of(m1, kind).last() == id);
    } else {
        let front = later.drop_last();
        assert forall|i: int| 0 <= i < front.len() implies front[i] != RegistryOp::Unregister(
            kind,
            id,
        ) by {
            assert(front[i] == later[i]);
        }
        law_registered_receives(m, kind, id, front);
        assert(later[later.len() - 1] == later.last());
        lemma_op_keeps(apply_ops(m1, front), kind, id, later.last());
    }
}

/// No delivery after removal: once a subscriber registered at most once for
/// `kind` is unregistered from it, no event of that kind dispatched later is
/// owed to it, until it is registered for `kind` again.
pub proof fn law_unregistered_receives_nothing(
    m: Map<EventKind, Seq<SubscriberId>>,
    kind: EventKind,
    id: SubscriberId,
    later: Seq<RegistryOp>,
)
    requires
        at_most_once(subscribers_of(m, kind), id),
        !later.contains(RegistryOp::Register(kind, id)),
    ensures
        !subscribers_of(apply_ops(unregister_spec(m, kind, id), later), kind).contains(id),
    decreases later.len(),
{
    let m1 = unregister_spec(m, kind, id);
    if later.len() == 0 {
        let s = subscribers_of(m, kind);
        if s.contains(id) {
            let i = lemma_remove_first_shape(s, id);
            let r = s.remove(i);
            assert forall|j: int| 0 <= j < r.len() implies r[j] != id by {
                if j < i {
                    assert(r[j] == s[j]);
                } else {
                    assert(r[j] == s[j + 1]);
                }
            }
        }
    } else {
        let front = later.drop_last();
        assert forall|i: int| 0 <= i < front.len() implies front[i] != RegistryOp::Register(
            kind,
            id,
        ) by {
            assert(front[i] == later[i]);
        }
        law_unregistered_receives_nothing(m, kind, id, front);
        assert(later[later.len() - 1] == later.last());
        lemma_op_keeps_out(apply_ops(m1, front), kind, id, later.last());
    }
}

/// Kind isolation: starting from an empty registry, a subscriber listed for
/// `kind` after any history of changes was registered for `kind` itself, so
/// it is never handed an event of another kind.
pub proof fn law_kind_isolation(ops: Seq<RegistryOp>, kind: EventKind, id: SubscriberId)
    requires
        subscribers_of(
            apply_ops(Map::<EventKind, Seq<SubscriberId>>::empty(), ops),
            kind,
        ).contains(id),
    ensures
        ops.contains(RegistryOp::Register(kind, id)),
    decreases ops.len(),
{
    let empty = Map::<EventKind, Seq<SubscriberId>>::empty();
    if ops.len() == 0 {
        assert(subscribers_of(empty, kind) =~= Seq::<SubscriberId>::empty());
    } else {
        let front = ops.drop_last();
        let last = ops.last();
        assert(ops[ops.len() - 1] == last);
        if last == RegistryOp::Register(kind, id) {
        } else {
            if subscribers_of(apply_ops(empty, front), kind).contains(id) {
                law_kind_isolation(front, kind, id);
                let i = choose|i: int| 0 <= i < front.len() && front[i] == RegistryOp::Register(
                    kind,
                    id,
                );
                assert(ops[i] == front[i]);
            } else {
                lemma_op_keeps_out(apply_ops(empty, front), kind, id, last);
            }
        }
    }
}

/// Several subscribers of one kind: registering each of `ids` for `kind`
/// appends them in order, so a dispatch of that kind is owed to every one.
pub proof fn law_all_subscribers_listed(
    m: Map<EventKind, Seq<SubscriberId>>,
    kind: EventKind,
    ids: Seq<SubscriberId>,
)
    ensures
        subscribers_of(register_each(m, kind, ids), kind) == subscribers_of(m, kind) + ids,
    decreases ids.len(),
{
    if ids.len() > 0 {
        law_all_subscribers_listed(m, kind, ids.drop_last());
        assert(subscribers_of(m, kind) + ids =~= (subscribers_of(m, kind) + ids.drop_last()).push(
            ids.last(),
        ));
    } else {
        assert(subscribers_of(m, kind) + ids =~= subscribers_of(m, kind));
    }
}

/// Duplicate registration: registering the same subscriber twice for a kind
/// owes it two more deliveries of each event of that kind.
pub proof fn law_duplicate_registration(
    m: Map<EventKind, Seq<SubscriberId>>,
    kind: EventKind,
    id: SubscriberId,
)
    ensures
        deliveries_to(subscribers_of(register_spec(register_spec(m, kind, id), kind, id), kind), id)
            == deliveries_to(subscribers_of(m, kind), id) + 2,
{
    let s = subscribers_of(m, kind);
    let s2 = s.push(id).push(id);
    assert(subscribers_of(register_spec(register_spec(m, kind, id), kind, id), kind) == s2);
    assert(s2.drop_last() =~= s.push(id));
    assert(s.push(id).drop_last() =~= s);
    reveal_with_fuel(deliveries_to, 2);
}

/// Queue saturation: a burst of publications into a queue with no dispatch
/// in between keeps the first ones up to the capacity, in order, and drops
/// the rest.
pub proof fn law_burst_keeps_what_fits<T>(queue: Seq<T>, capacity: nat, items: Seq<T>)
    requires
        queue.len() <= capacity,
    ensures
        offer_each(queue, capacity, items) == queue + items.take(
            vstd::math::min(items.len() as int, capacity - queue.len()),
        ),
    decreases items.len(),
{
    let room = capacity - queue.len();
    if items.len() == 0 {
        assert(queue + items.take(0) =~= queue);
    } else {
        let front = items.drop_last();
        law_burst_keeps_what_fits(queue, capacity, front);
        if front.len() < room {
            assert(queue + items.take(items.len() as int) =~= (queue + front.take(
                front.len() as int,
            )).push(items.last()));
        } else {
            assert(items.take(room) =~= front.take(room));
        }
    }
}

} // verus!
