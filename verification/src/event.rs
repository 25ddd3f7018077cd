//! The event model: a closed, tagged set of domain event variants and the
//! derivation of each variant's routing kind.

use vstd::prelude::*;

verus! {

/// An immutable domain event. The set of variants is closed: routing is
/// exhaustive over exactly these tags, and no variant's fields are read by
/// the routing layer.
#[derive(Debug, PartialEq, Eq, Hash)]
pub enum EnclaveEvent {
    ComputationRequested { e3_id: String, nodecount: u32, sortition_seed: u32 },
    KeyshareCreated { e3_id: String, keyshare: String },
}

/// The mathematical value of an [`EnclaveEvent`]: the same variants with
/// every string field taken to its character sequence.
pub enum EventView {
    ComputationRequested { e3_id: Seq<char>, nodecount: u32, sortition_seed: u32 },
    KeyshareCreated { e3_id: Seq<char>, keyshare: Seq<char> },
}

impl View for EnclaveEvent {
    type V = EventView;

    open spec fn view(&self) -> EventView {
        match self {
            EnclaveEvent::ComputationRequested { e3_id, nodecount, sortition_seed } => {
                EventView::ComputationRequested {
                    e3_id: e3_id@,
                    nodecount: *nodecount,
                    sortition_seed: *sortition_seed,
                }
            },
            EnclaveEvent::KeyshareCreated { e3_id, keyshare } => {
                EventView::KeyshareCreated { e3_id: e3_id@, keyshare: keyshare@ }
            },
        }
    }
}

impl DeepView for EnclaveEvent {
    type V = EventView;

    open spec fn deep_view(&self) -> EventView {
        self.view()
    }
}

/// The routing kind of an event: a pure function of the variant tag alone,
/// never of the payload fields.
pub open spec fn kind_of(e: EventView) -> Seq<char> {
    match e {
        EventView::ComputationRequested { .. } => "ComputationRequested"@,
        EventView::KeyshareCreated { .. } => "KeyshareCreated"@,
    }
}

/// The reserved subscription key that matches every event kind.
pub open spec fn wildcard() -> Seq<char> {
    "*"@
}

impl EnclaveEvent {
    /// The routing kind of this event, as a string.
    pub fn event_type(&self) -> (r: String)
        ensures
            r@ == kind_of(self@),
    {
        match self {
            EnclaveEvent::KeyshareCreated { .. } => "KeyshareCreated".to_owned(),
            EnclaveEvent::ComputationRequested { .. } => "ComputationRequested".to_owned(),
        }
    }
}

impl Clone for EnclaveEvent {
    /// A deep copy: the clone is equal to the original, so a published event
    /// can be handed to every recipient without any of them observing
    /// another's copy.
    fn clone(&self) -> (r: Self)
        ensures
            r == *self,
    {
        match self {
            EnclaveEvent::ComputationRequested { e3_id, nodecount, sortition_seed } => {
                EnclaveEvent::ComputationRequested {
                    e3_id: e3_id.clone(),
                    nodecount: *nodecount,
                    sortition_seed: *sortition_seed,
                }
            },
            EnclaveEvent::KeyshareCreated { e3_id, keyshare } => {
                EnclaveEvent::KeyshareCreated { e3_id: e3_id.clone(), keyshare: keyshare.clone() }
            },
        }
    }
}

/// No event's kind is the wildcard key: the reserved key can only be
/// subscribed to, never published under.
pub proof fn lemma_kind_of_is_not_wildcard(e: EventView)
    ensures
        kind_of(e) != wildcard(),
{
    reveal_strlit("*");
    reveal_strlit("ComputationRequested");
    reveal_strlit("KeyshareCreated");
    assert(wildcard().len() == 1);
    assert("ComputationRequested"@.len() == 20);
    assert("KeyshareCreated"@.len() == 15);
}

/// The kind derivation is deterministic and independent of payload values:
/// two events of the same variant have the same kind, whatever their fields
/// hold.
pub proof fn lemma_kind_of_payload_independent(a: EventView, b: EventView)
    requires
        (a is ComputationRequested && b is ComputationRequested) || (a is KeyshareCreated
            && b is KeyshareCreated),
    ensures
        kind_of(a) == kind_of(b),
{
}

} // verus!
