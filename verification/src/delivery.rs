//! The delivery model: what a fixed registry delivers to each recipient over
//! a sequence of publishes, and the routing laws the bus guarantees.
//!
//! Dispatching one publish hands a recipient one copy of the event per
//! occurrence of its handle in that publish's delivery plan, and each
//! recipient receives its deliveries in plan order; across publishes a
//! recipient sees them in publish order. `deliveries` is that model, and the
//! theorems below state the routing laws over it.

use vstd::prelude::*;

use crate::bus::RecipientId;
use crate::bus::plan;
use crate::bus::registered;
use crate::event::EventView;
use crate::event::kind_of;
use crate::event::lemma_kind_of_is_not_wildcard;
use crate::event::wildcard;

verus! {

/// How many times recipient `r` occurs in `s`.
pub open spec fn occ(s: Seq<RecipientId>, r: RecipientId) -> nat {
    s.filter(|x: RecipientId| x == r).len()
}

/// The events delivered to recipient `r` when the events `es` are published
/// in order against the fixed registry `m`: each publish hands `r` one copy
/// of its event per occurrence of `r` in that publish's delivery plan.
pub open spec fn deliveries(
    m: Map<Seq<char>, Seq<RecipientId>>,
    es: Seq<EventView>,
    r: RecipientId,
) -> Seq<EventView>
    decreases es.len(),
{
    if es.len() == 0 {
        Seq::empty()
    } else {
        deliveries(m, es.drop_last(), r) + Seq::new(
            occ(plan(m, es.last()), r),
            |i: int| es.last(),
        )
    }
}

/// The sub-sequence of `es` whose kind is `k`, in order.
pub open spec fn of_kind(es: Seq<EventView>, k: Seq<char>) -> Seq<EventView> {
    es.filter(|e: EventView| kind_of(e) == k)
}

/// Each event of `s` repeated `c` times in place, order preserved.
pub open spec fn repeat_each(s: Seq<EventView>, c: nat) -> Seq<EventView>
    decreases s.len(),
{
    if s.len() == 0 {
        Seq::empty()
    } else {
        repeat_each(s.drop_last(), c) + Seq::new(c, |i: int| s.last())
    }
}

/// Occurrence counting distributes over concatenation.
proof fn lemma_occ_add(a: Seq<RecipientId>, b: Seq<RecipientId>, r: RecipientId)
    ensures
        occ(a + b, r) == occ(a, r) + occ(b, r),
{
    Seq::filter_distributes_over_add(a, b, |x: RecipientId| x == r);
}

/// Law: a recipient subscribed exactly once to the wildcard key and to no
/// other kind receives every published event, once, in publish order.
pub proof fn theorem_wildcard_receives_all(
    m: Map<Seq<char>, Seq<RecipientId>>,
    es: Seq<EventView>,
    r: RecipientId,
)
    requires
        occ(registered(m, wildcard()), r) == 1,
        forall|k: Seq<char>| k != wildcard() ==> occ(#[trigger] registered(m, k), r) == 0,
    ensures
        deliveries(m, es, r) == es,
    decreases es.len(),
{
    if es.len() == 0 {
        assert(deliveries(m, es, r) =~= es);
    } else {
        theorem_wildcard_receives_all(m, es.drop_last(), r);
        let e = es.last();
        lemma_kind_of_is_not_wildcard(e);
        assert(occ(registered(m, kind_of(e)), r) == 0);
        lemma_occ_add(registered(m, wildcard()), registered(m, kind_of(e)), r);
        assert(occ(plan(m, e), r) == 1);
        assert(deliveries(m, es, r) =~= es);
    }
}

/// Law: a recipient subscribed `c` times to kind `k` and to no other kind
/// (in particular not to the wildcard) is delivered exactly the events of
/// kind `k`, each `c` times, in publish order.
pub proof fn theorem_kind_receives_of_kind(
    m: Map<Seq<char>, Seq<RecipientId>>,
    es: Seq<EventView>,
    r: RecipientId,
    k: Seq<char>,
    c: nat,
)
    requires
        k != wildcard(),
        occ(registered(m, k), r) == c,
        forall|k2: Seq<char>| k2 != k ==> occ(#[trigger] registered(m, k2), r) == 0,
    ensures
        deliveries(m, es, r) == repeat_each(of_kind(es, k), c),
    decreases es.len(),
{
    reveal(Seq::filter);
    if es.len() == 0 {
        assert(deliveries(m, es, r) =~= repeat_each(of_kind(es, k), c));
    } else {
        theorem_kind_receives_of_kind(m, es.drop_last(), r, k, c);
        let e = es.last();
        assert(occ(registered(m, wildcard()), r) == 0);
        lemma_occ_add(registered(m, wildcard()), registered(m, kind_of(e)), r);
        if kind_of(e) == k {
            assert(occ(plan(m, e), r) == c);
            let f = of_kind(es.drop_last(), k);
            assert(of_kind(es, k) == f.push(e));
            assert(f.push(e).drop_last() =~= f);
            assert(repeat_each(f.push(e), c) == repeat_each(f, c) + Seq::new(
                c,
                |i: int| f.push(e).last(),
            ));
            assert(Seq::new(c, |i: int| f.push(e).last()) =~= Seq::new(c, |i: int| e));
            assert(deliveries(m, es, r) =~= repeat_each(of_kind(es, k), c));
        } else {
            assert(occ(registered(m, kind_of(e)), r) == 0);
            assert(occ(plan(m, e), r) == 0);
            assert(Seq::new(0nat, |i: int| e) =~= Seq::<EventView>::empty());
            assert(of_kind(es, k) == of_kind(es.drop_last(), k));
            assert(deliveries(m, es, r) =~= repeat_each(of_kind(es, k), c));
        }
    }
}

/// Repeating each event once changes nothing.
proof fn lemma_repeat_each_once(s: Seq<EventView>)
    ensures
        repeat_each(s, 1) == s,
    decreases s.len(),
{
    if s.len() == 0 {
        assert(repeat_each(s, 1) =~= s);
    } else {
        lemma_repeat_each_once(s.drop_last());
        assert(repeat_each(s, 1) =~= s);
    }
}

/// Law: a recipient subscribed exactly once to kind `k` and to nothing else
/// receives, in order, exactly the sub-sequence of published events whose
/// kind is `k`.
pub proof fn theorem_kind_receives_exactly(
    m: Map<Seq<char>, Seq<RecipientId>>,
    es: Seq<EventView>,
    r: RecipientId,
    k: Seq<char>,
)
    requires
        k != wildcard(),
        occ(registered(m, k), r) == 1,
        forall|k2: Seq<char>| k2 != k ==> occ(#[trigger] registered(m, k2), r) == 0,
    ensures
        deliveries(m, es, r) == of_kind(es, k),
{
    theorem_kind_receives_of_kind(m, es, r, k, 1);
    lemma_repeat_each_once(of_kind(es, k));
}

/// Law: subscribing the same recipient twice to kind `k`, and to nothing
/// else, makes it receive each event of kind `k` twice, order preserved.
pub proof fn theorem_duplicate_subscription_delivers_twice(
    m: Map<Seq<char>, Seq<RecipientId>>,
    es: Seq<EventView>,
    r: RecipientId,
    k: Seq<char>,
)
    requires
        k != wildcard(),
        occ(registered(m, k), r) == 2,
        forall|k2: Seq<char>| k2 != k ==> occ(#[trigger] registered(m, k2), r) == 0,
    ensures
        deliveries(m, es, r) == repeat_each(of_kind(es, k), 2),
{
    theorem_kind_receives_of_kind(m, es, r, k, 2);
}

/// Law: a recipient registered nowhere receives nothing, whatever is
/// published; in particular nothing published before a recipient's first
/// subscription is buffered for it.
pub proof fn theorem_unsubscribed_receives_nothing(
    m: Map<Seq<char>, Seq<RecipientId>>,
    es: Seq<EventView>,
    r: RecipientId,
)
    requires
        forall|k: Seq<char>| occ(#[trigger] registered(m, k), r) == 0,
    ensures
        deliveries(m, es, r) == Seq::<EventView>::empty(),
    decreases es.len(),
{
    if es.len() == 0 {
        assert(deliveries(m, es, r) =~= Seq::<EventView>::empty());
    } else {
        theorem_unsubscribed_receives_nothing(m, es.drop_last(), r);
        let e = es.last();
        lemma_occ_add(registered(m, wildcard()), registered(m, kind_of(e)), r);
        assert(occ(plan(m, e), r) == 0);
        assert(Seq::new(0nat, |i: int| e) =~= Seq::<EventView>::empty());
        assert(deliveries(m, es, r) =~= Seq::<EventView>::empty());
    }
}

} // verus!
