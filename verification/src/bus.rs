//! The event bus: the subscription registry and the routing of published
//! events to the recipients registered for their kind or for the wildcard.

use vstd::prelude::*;

use crate::event::EnclaveEvent;
use crate::event::EventView;
use crate::event::kind_of;
use crate::event::wildcard;

verus! {

/// An opaque handle for one registered recipient. The bus never owns a
/// recipient; it only records which handles to deliver to. The caller that
/// dispatches a delivery plan maps each handle back to the actual recipient,
/// and a handle whose recipient has gone away is simply skipped there
/// (fire-and-forget).
pub type RecipientId = u64;

/// One registry entry: the recipients subscribed to one kind, in
/// subscription order.
struct Entry {
    kind: String,
    listeners: Vec<RecipientId>,
}

/// The registry that a sequence of entries denotes: each entry's kind mapped
/// to its recipient list. Later entries would win, but the bus keeps kinds
/// unique, so each kind's one entry gives its list.
spec fn entries_map(s: Seq<Entry>) -> Map<Seq<char>, Seq<RecipientId>>
    decreases s.len(),
{
    if s.len() == 0 {
        Map::empty()
    } else {
        entries_map(s.drop_last()).insert(s.last().kind@, s.last().listeners@)
    }
}

/// No two entries share a kind.
spec fn unique_kinds(s: Seq<Entry>) -> bool {
    forall|i: int, j: int| 0 <= i < j < s.len() ==> s[i].kind@ != s[j].kind@
}

/// The recipients registered under kind `k`, in subscription order; empty
/// while no one has subscribed to `k`.
pub open spec fn registered(m: Map<Seq<char>, Seq<RecipientId>>, k: Seq<char>) -> Seq<RecipientId> {
    if m.contains_key(k) {
        m[k]
    } else {
        Seq::empty()
    }
}

/// The delivery plan of one publish against registry `m`: every wildcard
/// recipient first, then every recipient of the event's own kind, each list
/// in subscription order.
pub open spec fn plan(m: Map<Seq<char>, Seq<RecipientId>>, e: EventView) -> Seq<RecipientId> {
    registered(m, wildcard()) + registered(m, kind_of(e))
}

/// The bus: a registry from event kind (or the wildcard key `"*"`) to the
/// recipients subscribed to it, in subscription order. Its mathematical
/// value is that mapping.
pub struct EventBus {
    entries: Vec<Entry>,
}

impl View for EventBus {
    type V = Map<Seq<char>, Seq<RecipientId>>;

    closed spec fn view(&self) -> Map<Seq<char>, Seq<RecipientId>> {
        entries_map(self.entries@)
    }
}

/// An entry's kind is in the registry, mapped to that entry's recipients.
proof fn lemma_entries_map_lookup(s: Seq<Entry>, i: int)
    requires
        unique_kinds(s),
        0 <= i < s.len(),
    ensures
        entries_map(s).contains_key(s[i].kind@),
        entries_map(s)[s[i].kind@] == s[i].listeners@,
    decreases s.len(),
{
    if i < s.len() - 1 {
        assert(unique_kinds(s.drop_last())) by {
            assert(forall|x: int, y: int|
                0 <= x < y < s.drop_last().len() ==> s.drop_last()[x] == s[x]
                    && s.drop_last()[y] == s[y]);
        }
        assert(s.drop_last()[i] == s[i]);
        lemma_entries_map_lookup(s.drop_last(), i);
        assert(s[i].kind@ != s.last().kind@);
    }
}

/// A kind no entry holds is not in the registry.
proof fn lemma_entries_map_absent(s: Seq<Entry>, k: Seq<char>)
    requires
        forall|i: int| 0 <= i < s.len() ==> s[i].kind@ != k,
    ensures
        !entries_map(s).contains_key(k),
    decreases s.len(),
{
    if s.len() > 0 {
        assert(forall|i: int|
            0 <= i < s.drop_last().len() ==> s.drop_last()[i] == s[i]);
        lemma_entries_map_absent(s.drop_last(), k);
        assert(s.last() == s[s.len() - 1]);
    }
}

/// Replacing one entry's recipient list, kind unchanged, updates exactly
/// that kind's list in the registry.
proof fn lemma_entries_map_update(s: Seq<Entry>, i: int, e: Entry)
    requires
        unique_kinds(s),
        0 <= i < s.len(),
        e.kind@ == s[i].kind@,
    ensures
        entries_map(s.update(i, e)) == entries_map(s).insert(e.kind@, e.listeners@),
    decreases s.len(),
{
    let s2 = s.update(i, e);
    if i == s.len() - 1 {
        assert(s2.drop_last() =~= s.drop_last());
        assert(s2.last() == e);
        assert(entries_map(s.drop_last()).insert(s.last().kind@, s.last().listeners@).insert(
            e.kind@,
            e.listeners@,
        ) =~= entries_map(s.drop_last()).insert(e.kind@, e.listeners@));
    } else {
        assert(unique_kinds(s.drop_last())) by {
            assert(forall|x: int, y: int|
                0 <= x < y < s.drop_last().len() ==> s.drop_last()[x] == s[x]
                    && s.drop_last()[y] == s[y]);
        }
        assert(s.drop_last()[i] == s[i]);
        lemma_entries_map_update(s.drop_last(), i, e);
        assert(s2.drop_last() =~= s.drop_last().update(i, e));
        assert(s2.last() == s.last());
        assert(e.kind@ != s.last().kind@);
        assert(entries_map(s.drop_last()).insert(e.kind@, e.listeners@).insert(
            s.last().kind@,
            s.last().listeners@,
        ) =~= entries_map(s.drop_last()).insert(s.last().kind@, s.last().listeners@).insert(
            e.kind@,
            e.listeners@,
        ));
    }
}

/// The index of the entry for `kind`, if one exists.
fn find_index(entries: &Vec<Entry>, kind: &String) -> (r: Option<usize>)
    ensures
        match r {
            Some(i) => i < entries@.len() && entries@[i as int].kind@ == kind@,
            None => forall|i: int| 0 <= i < entries@.len() ==> entries@[i].kind@ != kind@,
        },
{
    let mut idx: usize = 0;
    while idx < entries.len()
        invariant
            idx <= entries@.len(),
            forall|i: int| 0 <= i < idx ==> entries@[i].kind@ != kind@,
        decreases entries@.len() - idx,
    {
        if entries[idx].kind == *kind {
            return Some(idx);
        }
        idx = idx + 1;
    }
    None
}

/// Append every element of `src` to `out`, in order.
fn append_ids(out: &mut Vec<RecipientId>, src: &Vec<RecipientId>)
    ensures
        final(out)@ == old(out)@ + src@,
{
    let mut j: usize = 0;
    while j < src.len()
        invariant
            j <= src@.len(),
            out@ == old(out)@ + src@.subrange(0, j as int),
        decreases src@.len() - j,
    {
        out.push(src[j]);
        proof {
            assert(old(out)@ + src@.subrange(0, j + 1 as int) =~= (old(out)@ + src@.subrange(
                0,
                j as int,
            )).push(src@[j as int]));
        }
        j = j + 1;
    }
    proof {
        assert(src@.subrange(0, src@.len() as int) =~= src@);
    }
}

impl EventBus {
    #[verifier::type_invariant]
    spec fn wf(self) -> bool {
        unique_kinds(self.entries@)
    }

    /// A bus with an empty registry: nothing is delivered until someone
    /// subscribes.
    pub fn new() -> (r: EventBus)
        ensures
            r@ == Map::<Seq<char>, Seq<RecipientId>>::empty(),
    {
        EventBus { entries: Vec::new() }
    }

    /// Append `listener` to the end of the subscription list for
    /// `event_type`, creating the list on its first subscription. There is
    /// no deduplication: subscribing the same recipient twice to one kind
    /// makes it receive each matching event twice.
    pub fn subscribe(&mut self, event_type: String, listener: RecipientId)
        ensures
            final(self)@ == old(self)@.insert(
                event_type@,
                registered(old(self)@, event_type@).push(listener),
            ),
    {
        proof {
            use_type_invariant(&*self);
        }
        let ghost s0 = self.entries@;
        let mut entries: Vec<Entry> = Vec::new();
        core::mem::swap(&mut entries, &mut self.entries);
        match find_index(&entries, &event_type) {
            Some(i) => {
                proof {
                    lemma_entries_map_lookup(s0, i as int);
                }
                let mut entry = entries.remove(i);
                entry.listeners.push(listener);
                entries.insert(i, entry);
                proof {
                    assert(entries@ =~= s0.update(i as int, entries@[i as int]));
                    lemma_entries_map_update(s0, i as int, entries@[i as int]);
                    assert(unique_kinds(entries@)) by {
                        assert(forall|x: int|
                            0 <= x < entries@.len() ==> entries@[x].kind@ == s0[x].kind@);
                    }
                }
            },
            None => {
                proof {
                    lemma_entries_map_absent(s0, event_type@);
                }
                let mut listeners: Vec<RecipientId> = Vec::new();
                listeners.push(listener);
                entries.push(Entry { kind: event_type, listeners });
                proof {
                    assert(entries@.drop_last() =~= s0);
                    assert(Seq::<RecipientId>::empty().push(listener)
                        =~= entries@.last().listeners@);
                    assert(unique_kinds(entries@)) by {
                        assert(forall|x: int| 0 <= x < s0.len() ==> entries@[x] == s0[x]);
                    }
                }
            },
        }
        self.entries = entries;
    }

    /// The delivery plan for `event`: every wildcard recipient in
    /// subscription order, then every recipient of the event's kind in
    /// subscription order. The registry is only read; the caller dispatches
    /// the plan fire-and-forget, so a dead recipient costs the others
    /// nothing.
    pub fn publish(&self, event: &EnclaveEvent) -> (r: Vec<RecipientId>)
        ensures
            r@ == plan(self@, event@),
    {
        proof {
            use_type_invariant(self);
        }
        let kind = event.event_type();
        let star = "*".to_owned();
        let mut out: Vec<RecipientId> = Vec::new();
        match find_index(&self.entries, &star) {
            Some(i) => {
                proof {
                    lemma_entries_map_lookup(self.entries@, i as int);
                }
                append_ids(&mut out, &self.entries[i].listeners);
            },
            None => {
                proof {
                    lemma_entries_map_absent(self.entries@, star@);
                }
            },
        }
        proof {
            assert(out@ == registered(self@, wildcard()));
        }
        match find_index(&self.entries, &kind) {
            Some(i) => {
                proof {
                    lemma_entries_map_lookup(self.entries@, i as int);
                }
                append_ids(&mut out, &self.entries[i].listeners);
            },
            None => {
                proof {
                    lemma_entries_map_absent(self.entries@, kind@);
                    assert(out@ =~= out@ + Seq::<RecipientId>::empty());
                }
            },
        }
        out
    }
}

/// An event whose kind nobody has subscribed to, with no wildcard
/// subscription either, has an empty delivery plan: publishing before the
/// first matching subscribe delivers nothing, and nothing is buffered.
pub proof fn lemma_unsubscribed_kind_empty_plan(m: Map<Seq<char>, Seq<RecipientId>>, e: EventView)
    requires
        !m.contains_key(kind_of(e)),
        !m.contains_key(wildcard()),
    ensures
        plan(m, e) == Seq::<RecipientId>::empty(),
{
    assert(plan(m, e) =~= Seq::<RecipientId>::empty());
}

} // verus!
