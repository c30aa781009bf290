//! The strains an aim skill holds back while a section is open: the strains
//! that may still become the peak of a later section. A new strain pushes out
//! every queued strain below it, so the queue runs from the highest value down.
//!
//! Values and times are order keys (see [`crate::total_order`]).

use vstd::prelude::*;

verus! {

/// A queued strain and the time it was reached at.
#[derive(Clone, Copy, Debug)]
pub struct QueuedStrain {
    pub value: i64,
    pub time: i64,
}

/// Queued strains run from the highest value down.
pub open spec fn non_increasing(s: Seq<QueuedStrain>) -> bool {
    forall|i: int, j: int| 0 <= i < j < s.len() ==> #[trigger] s[i].value >= #[trigger] s[j].value
}

/// `i` is how many queued strains survive the arrival of a strain of value
/// `v`: those before `i` are at least `v`, those from `i` on are below it.
pub open spec fn survivors(s: Seq<QueuedStrain>, v: i64, i: int) -> bool {
    &&& 0 <= i <= s.len()
    &&& forall|k: int| 0 <= k < i ==> #[trigger] s[k].value >= v
    &&& forall|k: int| i <= k < s.len() ==> #[trigger] s[k].value < v
}

/// Queued strains, from the highest value down.
#[derive(Debug)]
pub struct QueuedStrains {
    queue: Vec<QueuedStrain>,
}

impl QueuedStrains {
    #[verifier::type_invariant]
    spec fn valid(self) -> bool {
        non_increasing(self.queue@)
    }

    /// The queued strains, front first.
    pub closed spec fn spec_queue(self) -> Seq<QueuedStrain> {
        self.queue@
    }

    /// An empty queue.
    pub fn new() -> (r: Self)
        ensures
            r.spec_queue() == Seq::<QueuedStrain>::empty(),
    {
        QueuedStrains { queue: Vec::new() }
    }

    /// Queues a strain of `value` reached at `time`, after dropping from the
    /// back every queued strain below `value`.
    pub fn push(&mut self, value: i64, time: i64)
        ensures
            exists|i: int|
                survivors(old(self).spec_queue(), value, i) && final(self).spec_queue()
                    == old(self).spec_queue().take(i).push(QueuedStrain { value, time }),
    {
        proof {
            use_type_invariant(&*self);
        }
        let mut taken = QueuedStrains::new();
        std::mem::swap(self, &mut taken);
        proof {
            use_type_invariant(&taken);
        }
        let QueuedStrains { queue: mut queue } = taken;
        let ghost before = queue@;
        loop
            invariant
                non_increasing(before),
                queue@.len() <= before.len(),
                queue@ == before.take(queue@.len() as int),
                forall|k: int| queue@.len() <= k < before.len() ==> #[trigger] before[k].value < value,
            ensures
                survivors(before, value, queue@.len() as int),
                queue@ == before.take(queue@.len() as int),
            decreases queue@.len(),
        {
            let n = queue.len();
            if n == 0 {
                break;
            }
            if queue[n - 1].value >= value {
                assert forall|k: int| 0 <= k < n implies #[trigger] before[k].value >= value by {
                    assert(before[k].value >= before[n - 1].value || k == n - 1);
                }
                break;
            }
            queue.pop();
            proof {
                assert(queue@ =~= before.take(n - 1));
            }
        }
        let ghost kept = queue@;
        let q = QueuedStrain { value, time };
        queue.push(q);
        proof {
            assert forall|a: int, b: int| 0 <= a < b < queue@.len() implies #[trigger] queue@[a].value
                >= #[trigger] queue@[b].value by {
                if b < kept.len() {
                    assert(queue@[a] == before[a] && queue@[b] == before[b]);
                } else {
                    assert(queue@[a] == before[a]);
                }
            }
        }
        assert(queue@ =~= before.take(kept.len() as int).push(q));
        assert(survivors(before, value, kept.len() as int));
        *self = QueuedStrains { queue };
        assert(before == old(self).spec_queue());
    }

    /// Takes the front strain out of the queue, if there is one.
    pub fn pop_front(&mut self) -> (r: Option<QueuedStrain>)
        ensures
            old(self).spec_queue().len() == 0 ==> r is None && final(self).spec_queue() == old(
                self,
            ).spec_queue(),
            old(self).spec_queue().len() > 0 ==> r == Some(old(self).spec_queue()[0])
                && final(self).spec_queue() == old(self).spec_queue().drop_first(),
    {
        proof {
            use_type_invariant(&*self);
        }
        let mut taken = QueuedStrains::new();
        std::mem::swap(self, &mut taken);
        proof {
            use_type_invariant(&taken);
        }
        let QueuedStrains { queue: mut queue } = taken;
        let ghost before = queue@;
        if queue.len() == 0 {
            *self = QueuedStrains { queue };
            return None;
        }
        let front = queue.remove(0);
        proof {
            assert(queue@ =~= before.drop_first());
            assert forall|a: int, b: int| 0 <= a < b < queue@.len() implies #[trigger] queue@[a].value
                >= #[trigger] queue@[b].value by {
                assert(queue@[a] == before[a + 1] && queue@[b] == before[b + 1]);
            }
        }
        *self = QueuedStrains { queue };
        Some(front)
    }

    /// Empties the queue.
    pub fn clear(&mut self)
        ensures
            final(self).spec_queue() == Seq::<QueuedStrain>::empty(),
    {
        *self = QueuedStrains::new();
    }

    /// Whether the queue is empty.
    pub fn is_empty(&self) -> (r: bool)
        ensures
            r == (self.spec_queue().len() == 0),
    {
        self.queue.len() == 0
    }

    /// The queued strains, front first.
    pub fn as_slice(&self) -> (r: &[QueuedStrain])
        ensures
            r@ == self.spec_queue(),
            non_increasing(r@),
    {
        proof {
            use_type_invariant(self);
        }
        self.queue.as_slice()
    }
}

impl Clone for QueuedStrains {
    /// A copy of the queue.
    fn clone(&self) -> (r: Self)
        ensures
            r.spec_queue() == self.spec_queue(),
    {
        proof {
            use_type_invariant(self);
        }
        let mut queue: Vec<QueuedStrain> = Vec::new();
        let n = self.queue.len();
        for i in 0..n
            invariant
                n == self.queue@.len(),
                queue@ == self.queue@.take(i as int),
        {
            proof {
                assert(self.queue@.take(i + 1) =~= self.queue@.take(i as int).push(self.queue@[i as int]));
            }
            queue.push(self.queue[i]);
        }
        proof {
            assert(self.queue@.take(n as int) =~= self.queue@);
        }
        QueuedStrains { queue }
    }
}

/// The front of a queue holds its highest value.
pub proof fn front_is_highest(s: Seq<QueuedStrain>)
    requires
        non_increasing(s),
        s.len() > 0,
    ensures
        forall|k: int| 0 <= k < s.len() ==> s[0].value >= #[trigger] s[k].value,
{
    assert forall|k: int| 0 <= k < s.len() implies s[0].value >= #[trigger] s[k].value by {
        if k > 0 {
            assert(s[0].value >= s[k].value);
        }
    }
}

/// Pushing onto a queue keeps it running from the highest value down, and the
/// new strain ends up at the back.
pub proof fn push_keeps_order(s: Seq<QueuedStrain>, q: QueuedStrain, i: int)
    requires
        non_increasing(s),
        survivors(s, q.value, i),
    ensures
        non_increasing(s.take(i).push(q)),
        s.take(i).push(q).last() == q,
{
    let t = s.take(i).push(q);
    assert forall|a: int, b: int| 0 <= a < b < t.len() implies #[trigger] t[a].value
        >= #[trigger] t[b].value by {
        assert(t[a] == s[a]);
        if b < i {
            assert(t[b] == s[b]);
        }
    }
}

} // verus!
