//! The admission controller: a counting bound on the lookups in flight.

use vstd::prelude::*;

verus! {

/// A pool of permits. A lookup holds one permit from the moment it is
/// admitted until it has completed, whether it succeeded or failed.
#[derive(Debug)]
pub struct AdmissionController {
    limit: u64,
    held: u64,
}

/// Something that happens to a controller.
pub enum PermitEvent {
    /// A lookup asks to be admitted.
    Acquire,
    /// A lookup that was admitted has completed.
    Release,
}

impl AdmissionController {
    /// The number of permits in the pool.
    pub closed spec fn limit(&self) -> nat {
        self.limit as nat
    }

    /// The number of permits that are handed out.
    pub closed spec fn held(&self) -> nat {
        self.held as nat
    }

    /// The pool is not empty, and no more permits are out than it has.
    #[verifier::type_invariant]
    pub open spec fn wf(&self) -> bool {
        0 < self.limit() && self.held() <= self.limit()
    }

    /// The controller once a lookup has asked to be admitted: one more
    /// permit is out if one was free, and nothing has changed if none was.
    pub open spec fn after_acquire(&self, next: &AdmissionController) -> bool {
        next.limit() == self.limit() && next.held() == if self.held() < self.limit() {
            self.held() + 1
        } else {
            self.held()
        }
    }

    /// The controller once a lookup has completed: one permit fewer is out,
    /// where any was.
    pub open spec fn after_release(&self, next: &AdmissionController) -> bool {
        next.limit() == self.limit() && next.held() == if self.held() > 0 {
            self.held() - 1
        } else {
            0
        }
    }

    /// A controller with `limit` permits, all of them free. There is none
    /// with no permit at all.
    pub fn new(limit: u64) -> (r: Option<AdmissionController>)
        ensures
            limit == 0 <==> r is None,
            r matches Some(ctl) ==> ctl.limit() == limit && ctl.held() == 0,
    {
        if limit == 0 {
            None
        } else {
            Some(AdmissionController { limit, held: 0 })
        }
    }

    /// The number of permits in the pool.
    pub fn permits(&self) -> (r: u64)
        ensures
            r == self.limit(),
    {
        self.limit
    }

    /// The number of permits that are handed out.
    pub fn in_flight(&self) -> (r: u64)
        ensures
            r == self.held(),
    {
        self.held
    }

    /// The number of permits that are free.
    pub fn available(&self) -> (r: u64)
        ensures
            r == self.limit() - self.held(),
    {
        proof {
            use_type_invariant(self);
        }
        self.limit - self.held
    }

    /// Takes a permit if one is free, and says whether it did.
    pub fn try_acquire(&mut self) -> (admitted: bool)
        ensures
            admitted == (old(self).held() < old(self).limit()),
            old(self).after_acquire(final(self)),
    {
        proof {
            use_type_invariant(&*self);
        }
        if self.held < self.limit {
            self.held = self.held + 1;
            true
        } else {
            false
        }
    }

    /// Gives a permit back, and says whether there was one to give back.
    pub fn release(&mut self) -> (returned: bool)
        ensures
            returned == (old(self).held() > 0),
            old(self).after_release(final(self)),
    {
        proof {
            use_type_invariant(&*self);
        }
        if self.held > 0 {
            self.held = self.held - 1;
            true
        } else {
            false
        }
    }
}

/// Whether `trace` is a history of a controller: each state follows from
/// the one before it by one lookup asking to be admitted or one completing.
pub open spec fn is_history(trace: Seq<AdmissionController>, events: Seq<PermitEvent>) -> bool {
    &&& trace.len() == events.len() + 1
    &&& forall|i: int|
        0 <= i < events.len() ==> match #[trigger] events[i] {
            PermitEvent::Acquire => trace[i].after_acquire(&trace[i + 1]),
            PermitEvent::Release => trace[i].after_release(&trace[i + 1]),
        }
}

/// However lookups ask and complete, a controller never has more permits
/// out than its pool holds, and the pool keeps its size.
pub proof fn lemma_bound_holds_throughout(
    trace: Seq<AdmissionController>,
    events: Seq<PermitEvent>,
    at: int,
)
    requires
        is_history(trace, events),
        trace[0].wf(),
        0 <= at < trace.len(),
    ensures
        trace[at].wf(),
        trace[at].limit() == trace[0].limit(),
    decreases at,
{
    if at > 0 {
        lemma_bound_holds_throughout(trace, events, at - 1);
        assert(events[at - 1] is Acquire || events[at - 1] is Release);
    }
}

} // verus!
