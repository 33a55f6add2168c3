use vstd::prelude::*;

verus! {

/// The pending-request table of one protocol client: the ids of requests
/// sent and not yet answered, and the id the next request will take.
/// The writer allocates ids; the reader resolves them as responses
/// arrive.
pub struct PendingTable {
    /// Id the next request will carry; grows by one per request.
    pub next_id: u64,
    /// Ids awaiting their response, oldest first.
    pub pending: Vec<u64>,
}

/// Where the reader routes one incoming message.
pub enum Dispatch {
    /// The message carries the id of a waiting request: hand it the
    /// payload as its result.
    Resolve,
    /// The message carries no id: a server-initiated notification for the
    /// notification sink; no request waits on it.
    Notify,
    /// The message carries an id nothing waits under: a protocol error.
    Unmatched,
}

impl PendingTable {
    /// Every waiting id was once allocated, and none repeats.
    pub open spec fn wf(self) -> bool {
        &&& forall|i: int| 0 <= i < self.pending@.len() ==> #[trigger] self.pending@[i]
            < self.next_id
        &&& forall|i: int, j: int|
            0 <= i < j < self.pending@.len() ==> self.pending@[i] != self.pending@[j]
    }

    /// An empty table; the first request takes id 1.
    pub fn new() -> (r: PendingTable)
        ensures
            r.wf(),
            r.next_id == 1,
            r.pending@ =~= Seq::<u64>::empty(),
    {
        PendingTable { next_id: 1, pending: Vec::new() }
    }

    /// Take the id for one outgoing request. Ids grow monotonically and
    /// never repeat: the id taken waits in the table and was not waiting
    /// before.
    pub fn allocate(&mut self) -> (r: u64)
        requires
            old(self).wf(),
            old(self).next_id < u64::MAX,
        ensures
            final(self).wf(),
            r == old(self).next_id,
            final(self).next_id == old(self).next_id + 1,
            final(self).pending@ == old(self).pending@.push(r),
            !old(self).pending@.contains(r),
    {
        let id = self.next_id;
        self.next_id = self.next_id + 1;
        self.pending.push(id);
        proof {
            if old(self).pending@.contains(id) {
                let k = choose|k: int|
                    0 <= k < old(self).pending@.len() && old(self).pending@[k] == id;
                assert(old(self).pending@[k] < id);
            }
            assert forall|i: int, j: int|
                0 <= i < j < self.pending@.len() implies self.pending@[i] != self.pending@[j] by {
                if j == self.pending@.len() - 1 {
                    assert(self.pending@[i] == old(self).pending@[i]);
                    assert(self.pending@[i] < id);
                }
            }
        }
        id
    }

    /// Resolve the request waiting under `id`: it stops waiting, and the
    /// call says whether anything waited at all.
    pub fn complete(&mut self, id: u64) -> (r: bool)
        requires
            old(self).wf(),
        ensures
            final(self).wf(),
            final(self).next_id == old(self).next_id,
            r == old(self).pending@.contains(id),
            r ==> exists|i: int|
                0 <= i < old(self).pending@.len() && old(self).pending@[i] == id
                    && final(self).pending@ == old(self).pending@.remove(i),
            !r ==> final(self).pending@ == old(self).pending@,
    {
        let mut i: usize = 0;
        while i < self.pending.len()
            invariant
                i <= self.pending@.len(),
                old(self).wf(),
                self.pending@ == old(self).pending@,
                self.next_id == old(self).next_id,
                forall|j: int| 0 <= j < i ==> old(self).pending@[j] != id,
            decreases self.pending@.len() - i,
        {
            if self.pending[i] == id {
                self.pending.remove(i);
                proof {
                    assert(old(self).pending@.contains(id)) by {
                        assert(old(self).pending@[i as int] == id);
                    }
                    let t = old(self).pending@.remove(i as int);
                    assert forall|a: int, b: int| 0 <= a < b < t.len() implies t[a] != t[b] by {
                        let a0 = if a < i { a } else { a + 1 };
                        let b0 = if b < i { b } else { b + 1 };
                        assert(t[a] == old(self).pending@[a0] && t[b] == old(self).pending@[b0]);
                    }
                    assert forall|a: int| 0 <= a < t.len() implies #[trigger] t[a]
                        < self.next_id by {
                        let a0 = if a < i { a } else { a + 1 };
                        assert(t[a] == old(self).pending@[a0]);
                    }
                }
                return true;
            }
            i = i + 1;
        }
        proof {
            if old(self).pending@.contains(id) {
                let k = choose|k: int|
                    0 <= k < old(self).pending@.len() && old(self).pending@[k] == id;
                assert(old(self).pending@[k] != id);
            }
        }
        false
    }

    /// The process died or the client is closing: every pending request is
    /// taken out at once, oldest first, so each caller can be resolved
    /// with a termination error instead of waiting forever.
    pub fn fail_all(&mut self) -> (r: Vec<u64>)
        requires
            old(self).wf(),
        ensures
            final(self).wf(),
            final(self).next_id == old(self).next_id,
            final(self).pending@ =~= Seq::<u64>::empty(),
            r@ == old(self).pending@,
    {
        let mut drained: Vec<u64> = Vec::new();
        while self.pending.len() > 0
            invariant
                drained@ + self.pending@ == old(self).pending@,
                self.next_id == old(self).next_id,
            decreases self.pending@.len(),
        {
            let x = self.pending.remove(0);
            drained.push(x);
            assert(drained@ + self.pending@ =~= old(self).pending@);
        }
        assert(drained@ =~= drained@ + self.pending@);
        drained
    }

    /// Route one incoming message by its correlation id, resolving the
    /// waiting request when there is one.
    pub fn dispatch_incoming(&mut self, id: Option<u64>) -> (r: Dispatch)
        requires
            old(self).wf(),
        ensures
            final(self).wf(),
            final(self).next_id == old(self).next_id,
            match id {
                None => r is Notify && final(self).pending@ == old(self).pending@,
                Some(i) => {
                    if old(self).pending@.contains(i) {
                        r is Resolve && exists|k: int|
                            0 <= k < old(self).pending@.len() && old(self).pending@[k] == i
                                && final(self).pending@ == old(self).pending@.remove(k)
                    } else {
                        r is Unmatched && final(self).pending@ == old(self).pending@
                    }
                },
            },
    {
        match id {
            None => Dispatch::Notify,
            Some(i) => {
                if self.complete(i) {
                    Dispatch::Resolve
                } else {
                    Dispatch::Unmatched
                }
            },
        }
    }
}

} // verus!
