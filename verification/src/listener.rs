//! The reference recipient: a log-style listener that records every event it
//! receives, in delivery order, and hands out a snapshot of its log.

use vstd::prelude::*;

use crate::event::EnclaveEvent;
use crate::event::EventView;

verus! {

/// A recipient that appends each received event to an ordered, unbounded
/// log. Its mathematical value is the sequence of events received so far,
/// in delivery order.
pub struct Listener {
    logs: Vec<EnclaveEvent>,
}

impl View for Listener {
    type V = Seq<EventView>;

    closed spec fn view(&self) -> Seq<EventView> {
        self.logs.deep_view()
    }
}

impl Listener {
    /// A listener that has received nothing yet.
    pub fn new() -> (r: Listener)
        ensures
            r@ == Seq::<EventView>::empty(),
    {
        let r = Listener { logs: Vec::new() };
        proof {
            assert(r@ =~= Seq::<EventView>::empty());
        }
        r
    }

    /// Receive one event: append it to the end of the log.
    pub fn handle(&mut self, event: EnclaveEvent)
        ensures
            final(self)@ == old(self)@.push(event@),
    {
        self.logs.push(event);
        proof {
            assert(self@ =~= old(self)@.push(event@));
        }
    }

    /// A snapshot of everything received so far, in delivery order. The
    /// snapshot is a deep copy, not a live view of the log.
    pub fn get_logs(&self) -> (r: Vec<EnclaveEvent>)
        ensures
            r.deep_view() == self@,
    {
        let mut r: Vec<EnclaveEvent> = Vec::new();
        let mut i: usize = 0;
        while i < self.logs.len()
            invariant
                i <= self.logs@.len(),
                r.deep_view() == self.logs.deep_view().subrange(0, i as int),
            decreases self.logs@.len() - i,
        {
            let ghost r0 = r@;
            let ghost rdv0 = r.deep_view();
            let e = self.logs[i].clone();
            proof {
                assert(e == self.logs@[i as int]);
            }
            r.push(e);
            proof {
                let ghost goal = self.logs.deep_view().subrange(0, i as int + 1);
                assert(r@ == r0.push(e));
                assert(r@.len() == r0.len() + 1);
                assert(rdv0.len() == r0.len());
                assert(rdv0.len() == i);
                assert(r.deep_view().len() == r@.len());
                assert(r.deep_view().len() == i + 1);
                assert(goal.len() == i + 1);
                assert forall|j: int| 0 <= j < i + 1 implies r.deep_view()[j] == goal[j] by {
                    assert(r.deep_view()[j] == r@[j].deep_view());
                    assert(goal[j] == self.logs.deep_view()[j]);
                    assert(self.logs.deep_view()[j] == self.logs@[j].deep_view());
                    if j < i {
                        assert(r@[j] == r0[j]);
                        assert(rdv0[j] == r0[j].deep_view());
                        assert(rdv0[j] == self.logs.deep_view().subrange(0, i as int)[j]);
                    } else {
                        assert(r@[j] == e);
                    }
                }
                assert(r.deep_view() =~= goal);
            }
            i = i + 1;
        }
        proof {
            assert(self.logs.deep_view().subrange(0, self.logs@.len() as int)
                =~= self.logs.deep_view());
        }
        r
    }
}

} // verus!
