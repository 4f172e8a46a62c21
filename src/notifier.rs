use vstd::prelude::*;

verus! {

struct Registration {
    identity: u128,
    device: u32,
    listener: u64,
}

/// At most one active listener per (identity, device); a new registration
/// replaces the old one.
pub struct AvailabilityNotifier {
    regs: Vec<Registration>,
}

impl AvailabilityNotifier {
    spec fn slot(self, i: int, identity: u128, device: u32) -> bool {
        0 <= i < self.regs@.len() && self.regs@[i].identity == identity
            && self.regs@[i].device == device
    }

    /// The listener registered for the device, if any.
    pub closed spec fn listener(self, identity: u128, device: u32) -> Option<u64> {
        if exists|i: int| self.slot(i, identity, device) {
            Some(self.regs@[choose|i: int| self.slot(i, identity, device)].listener)
        } else {
            None
        }
    }

    pub closed spec fn wf(self) -> bool {
        forall|i: int, j: int|
            0 <= i < self.regs@.len() && 0 <= j < self.regs@.len() && i != j ==> !(
            #[trigger] self.regs@[i].identity == #[trigger] self.regs@[j].identity
                && self.regs@[i].device == self.regs@[j].device)
    }

    /// Every device but (`identity`, `device`) has in `self` the listener it has in `other`.
    pub open spec fn unchanged_except(self, other: AvailabilityNotifier, identity: u128, device: u32) -> bool {
        forall|a: u128, b: u32|
            !(a == identity && b == device) ==> #[trigger] self.listener(a, b) == other.listener(a, b)
    }

    proof fn lemma_slot(self, i: int)
        requires
            self.wf(),
            0 <= i < self.regs@.len(),
        ensures
            self.listener(self.regs@[i].identity, self.regs@[i].device) == Some(self.regs@[i].listener),
    {
        let (a, b) = (self.regs@[i].identity, self.regs@[i].device);
        assert(self.slot(i, a, b));
        let j = choose|j: int| self.slot(j, a, b);
        assert(self.slot(j, a, b));
    }

    /// When each registration of `c1` sits in `c2` at `m` of its index, and `c2`
    /// holds no other registration for (`a`, `b`), both have the same listener there.
    proof fn lemma_listener_kept(
        c1: AvailabilityNotifier,
        c2: AvailabilityNotifier,
        a: u128,
        b: u32,
        m: spec_fn(int) -> int,
    )
        requires
            c1.wf(),
            c2.wf(),
            forall|j: int| 0 <= j < c1.regs@.len() ==> 0 <= #[trigger] m(j) < c2.regs@.len(),
            forall|j: int|
                0 <= j < c1.regs@.len() ==> c2.regs@[#[trigger] m(j)] == c1.regs@[j],
            forall|j: int| #[trigger] c2.slot(j, a, b) ==> exists|i: int| 0 <= i < c1.regs@.len() && #[trigger] m(i) == j,
        ensures
            c2.listener(a, b) == c1.listener(a, b),
    {
        if exists|j: int| c1.slot(j, a, b) {
            let j = choose|j: int| c1.slot(j, a, b);
            assert(c1.slot(j, a, b));
            assert(c2.regs@[m(j)] == c1.regs@[j]);
            assert(c2.slot(m(j), a, b));
            c1.lemma_slot(j);
            c2.lemma_slot(m(j));
        } else {
            assert forall|j: int| !c2.slot(j, a, b) by {
                if c2.slot(j, a, b) {
                    let i = choose|i: int| 0 <= i < c1.regs@.len() && #[trigger] m(i) == j;
                    assert(c2.regs@[m(i)] == c1.regs@[i]);
                    assert(c1.slot(i, a, b));
                }
            }
        }
    }

    /// No listener anywhere.
    pub fn new() -> (r: AvailabilityNotifier)
        ensures
            r.wf(),
            forall|a: u128, b: u32| #[trigger] r.listener(a, b) is None,
    {
        AvailabilityNotifier { regs: Vec::new() }
    }

    fn find(&self, identity: u128, device: u32) -> (r: Option<usize>)
        ensures
            match r {
                Some(i) => self.slot(i as int, identity, device),
                None => forall|i: int| !self.slot(i, identity, device),
            },
    {
        let mut i: usize = 0;
        while i < self.regs.len()
            invariant
                i <= self.regs@.len(),
                forall|j: int| 0 <= j < i ==> !self.slot(j, identity, device),
            decreases self.regs@.len() - i,
        {
            if self.regs[i].identity == identity && self.regs[i].device == device {
                return Some(i);
            }
            i = i + 1;
        }
        None
    }

    /// The listener to signal for mail waiting on the device: the registered one, if any.
    pub fn notify(&self, identity: u128, device: u32) -> (r: Option<u64>)
        requires
            self.wf(),
        ensures
            r == self.listener(identity, device),
    {
        match self.find(identity, device) {
            Some(i) => {
                proof {
                    self.lemma_slot(i as int);
                }
                Some(self.regs[i].listener)
            },
            None => None,
        }
    }

    /// Registers `listener` for the device, replacing any earlier one.
    pub fn register(&mut self, identity: u128, device: u32, listener: u64)
        requires
            old(self).wf(),
        ensures
            final(self).wf(),
            final(self).listener(identity, device) == Some(listener),
            final(self).unchanged_except(*old(self), identity, device),
    {
        self.unregister(identity, device);
        let ghost c1 = *self;
        self.regs.push(Registration { identity, device, listener });
        proof {
            let c2 = *self;
            let n = c1.regs@.len() as int;
            assert forall|j: int| !c1.slot(j, identity, device) by {
                if c1.slot(j, identity, device) {
                    c1.lemma_slot(j);
                }
            }
            assert forall|p: int, q: int|
                0 <= p < c2.regs@.len() && 0 <= q < c2.regs@.len() && p != q implies !(
                #[trigger] c2.regs@[p].identity == #[trigger] c2.regs@[q].identity
                    && c2.regs@[p].device == c2.regs@[q].device) by {
                if p == n {
                    assert(!c1.slot(q, identity, device));
                } else if q == n {
                    assert(!c1.slot(p, identity, device));
                } else {
                    assert(c1.regs@[p] == c2.regs@[p] && c1.regs@[q] == c2.regs@[q]);
                }
            }
            c2.lemma_slot(n);
            assert forall|a: u128, b: u32| !(a == identity && b == device) implies #[trigger] c2.listener(a, b)
                == c1.listener(a, b) by {
                let m = |p: int| p;
                assert forall|j: int| #[trigger] c2.slot(j, a, b) implies exists|i: int|
                    0 <= i < c1.regs@.len() && #[trigger] m(i) == j by {
                    assert(m(j) == j);
                }
                AvailabilityNotifier::lemma_listener_kept(c1, c2, a, b, m);
            }
        }
    }

    /// Removes the device's listener; does nothing when there is none.
    pub fn unregister(&mut self, identity: u128, device: u32)
        requires
            old(self).wf(),
        ensures
            final(self).wf(),
            final(self).listener(identity, device) is None,
            final(self).unchanged_except(*old(self), identity, device),
    {
        let ghost c1 = *self;
        if let Some(i) = self.find(identity, device) {
            self.regs.remove(i);
            proof {
                let c2 = *self;
                let m = |p: int| if p < i { p } else { p + 1 };
                assert forall|p: int| 0 <= p < c2.regs@.len() implies c2.regs@[p] == c1.regs@[m(p)] by {}
                assert forall|p: int, q: int|
                    0 <= p < c2.regs@.len() && 0 <= q < c2.regs@.len() && p != q implies !(
                    #[trigger] c2.regs@[p].identity == #[trigger] c2.regs@[q].identity
                        && c2.regs@[p].device == c2.regs@[q].device) by {
                    assert(c2.regs@[p] == c1.regs@[m(p)] && c2.regs@[q] == c1.regs@[m(q)]);
                }
                assert forall|j: int| !c2.slot(j, identity, device) by {
                    if c2.slot(j, identity, device) {
                        assert(c2.regs@[j] == c1.regs@[m(j)]);
                        assert(c1.slot(m(j), identity, device));
                    }
                }
                assert forall|a: u128, b: u32| !(a == identity && b == device) implies #[trigger] c2.listener(a, b)
                    == c1.listener(a, b) by {
                    assert(c1.slot(i as int, identity, device));
                    assert forall|j: int| #[trigger] c1.slot(j, a, b) implies exists|w: int|
                        0 <= w < c2.regs@.len() && #[trigger] m(w) == j by {
                        let w = if j < i { j } else { j - 1 };
                        assert(m(w) == j);
                    }
                    AvailabilityNotifier::lemma_listener_kept(c2, c1, a, b, m);
                }
            }
        }
    }
}

} // verus!
