use vstd::prelude::*;

verus! {

/// One log record emitted by a call: its topics and its opaque data.
#[derive(Clone, Debug)]
pub struct LogRecord {
    pub topics: Vec<[u8; 32]>,
    pub data: Vec<u8>,
}

/// Why a construction step could not be placed in the tree.
#[derive(Clone, Copy, Debug, PartialEq, Eq, Structural)]
pub enum TraceError {
    /// The event stream does not nest: the descent met a node without the
    /// still-open call it needed.
    DisconnectedTrace,
}

/// One call frame and, through `inner`, every call made beneath it.
pub struct CallTrace {
    /// Distance from the root (the root is at depth 0).
    pub depth: usize,
    /// Index among the parent's children at the moment the node was added.
    pub location: usize,
    /// Outcome of the call.
    pub success: bool,
    /// Callee address.
    pub addr: [u8; 20],
    /// Whether the call deploys new code.
    pub created: bool,
    /// Call data, the function selector first where there is one.
    pub data: Vec<u8>,
    /// Gas cost.
    pub cost: u64,
    /// Return data.
    pub output: Vec<u8>,
    /// Logs emitted by this frame itself.
    pub logs: Vec<LogRecord>,
    /// Inner calls, in call order.
    pub inner: Vec<CallTrace>,
}

// ----- spec model -----

/// The frame where a fragment of depth `d` belongs is reached from `t`:
/// `d` is 0, or `t` is its parent, or the descent through last children gets there.
pub open spec fn connected(t: CallTrace, d: usize) -> bool
    decreases t,
{
    if d == 0 {
        true
    } else if t.depth == d - 1 {
        true
    } else if t.inner@.len() == 0 {
        false
    } else {
        connected(t.inner@.last(), d)
    }
}

/// The number of children of the frame that would receive a new child of depth `d`.
pub open spec fn location_of(t: CallTrace, d: usize) -> nat
    decreases t,
{
    if d == 0 {
        0
    } else if t.depth == d - 1 {
        t.inner@.len()
    } else if t.inner@.len() == 0 {
        0
    } else {
        location_of(t.inner@.last(), d)
    }
}

/// `a` and `b` agree on every field but `inner`.
pub open spec fn same_frame(a: CallTrace, b: CallTrace) -> bool {
    &&& a.depth == b.depth
    &&& a.location == b.location
    &&& a.success == b.success
    &&& a.addr == b.addr
    &&& a.created == b.created
    &&& a.data@ == b.data@
    &&& a.cost == b.cost
    &&& a.output@ == b.output@
    &&& a.logs@ == b.logs@
}

/// `b` is `a` after `add_trace(n)` on a connected fragment.
pub open spec fn added(a: CallTrace, b: CallTrace, n: CallTrace) -> bool
    decreases a,
{
    &&& same_frame(a, b)
    &&& if n.depth == 0 {
        b.inner@ == a.inner@
    } else if a.depth == n.depth - 1 {
        b.inner@ == a.inner@.push(n)
    } else {
        &&& a.inner@.len() > 0
        &&& b.inner@.len() == a.inner@.len()
        &&& b.inner@.drop_last() == a.inner@.drop_last()
        &&& added(a.inner@.last(), b.inner@.last(), n)
    }
}

/// The result fields of `b` come from `n`; its place in the tree and its
/// inner calls are those of `a`.
pub open spec fn overwritten(a: CallTrace, b: CallTrace, n: CallTrace) -> bool {
    &&& b.depth == a.depth
    &&& b.location == a.location
    &&& b.created == a.created
    &&& b.inner@ == a.inner@
    &&& b.success == n.success
    &&& b.addr == n.addr
    &&& b.cost == n.cost
    &&& b.output@ == n.output@
    &&& b.logs@ == n.logs@
    &&& b.data@ == n.data@
}

/// `update_trace(n)` can complete a call: the descent reaches the parent
/// frame, and that frame has a child at `n.location`.
pub open spec fn updatable(t: CallTrace, n: CallTrace) -> bool
    decreases t,
{
    if n.depth == 0 {
        true
    } else if t.depth == n.depth - 1 {
        n.location < t.inner@.len()
    } else if t.inner@.len() == 0 {
        false
    } else {
        updatable(t.inner@.last(), n)
    }
}

/// `b` is `a` after `update_trace(n)` on an updatable fragment.
pub open spec fn updated(a: CallTrace, b: CallTrace, n: CallTrace) -> bool
    decreases a,
{
    if n.depth == 0 {
        overwritten(a, b, n)
    } else {
        &&& same_frame(a, b)
        &&& b.inner@.len() == a.inner@.len()
        &&& if a.depth == n.depth - 1 {
            &&& n.location < a.inner@.len()
            &&& forall|i: int|
                0 <= i < a.inner@.len() && i != n.location ==> #[trigger] b.inner@[i] == a.inner@[i]
            &&& overwritten(a.inner@[n.location as int], b.inner@[n.location as int], n)
        } else {
            &&& a.inner@.len() > 0
            &&& b.inner@.drop_last() == a.inner@.drop_last()
            &&& updated(a.inner@.last(), b.inner@.last(), n)
        }
    }
}

/// Logs of `t` and of every frame beneath it.
pub open spec fn total_logs(t: CallTrace) -> nat
    decreases t, t.inner@.len() + 1,
{
    t.logs@.len() + logs_of_first(t, t.inner@.len() as int)
}

/// Logs beneath the first `k` children of `t`.
pub open spec fn logs_of_first(t: CallTrace, k: int) -> nat
    decreases t, k,
{
    if k <= 0 || k > t.inner@.len() {
        0
    } else {
        logs_of_first(t, k - 1) + total_logs(t.inner@[k - 1])
    }
}

/// Frames beneath `t`, `t` itself not counted.
pub open spec fn total_calls(t: CallTrace) -> nat
    decreases t, t.inner@.len() + 1,
{
    t.inner@.len() + calls_of_first(t, t.inner@.len() as int)
}

/// Frames beneath the first `k` children of `t`, the children not counted.
pub open spec fn calls_of_first(t: CallTrace, k: int) -> nat
    decreases t, k,
{
    if k <= 0 || k > t.inner@.len() {
        0
    } else {
        calls_of_first(t, k - 1) + total_calls(t.inner@[k - 1])
    }
}

/// The first frame in depth-first order with this depth and location; a
/// frame at the searched depth whose location differs is not searched below.
pub open spec fn find(t: CallTrace, depth: usize, location: usize) -> Option<CallTrace>
    decreases t, t.inner@.len() + 1,
{
    if t.depth == depth && t.location == location {
        Some(t)
    } else if t.depth != depth {
        find_from(t, depth, location, 0)
    } else {
        None
    }
}

/// The first match below the children of `t` from index `i` on.
pub open spec fn find_from(t: CallTrace, depth: usize, location: usize, i: int) -> Option<CallTrace>
    decreases t, t.inner@.len() - i,
{
    if i < 0 || i >= t.inner@.len() {
        None
    } else {
        match find(t.inner@[i], depth, location) {
            Some(f) => Some(f),
            None => find_from(t, depth, location, i + 1),
        }
    }
}

impl CallTrace {
    /// Index the fragment would receive among its parent's children if it
    /// were added now; 0 for a root fragment.
    pub fn location(&self, new_trace: &CallTrace) -> (r: Result<usize, TraceError>)
        ensures
            r is Ok <==> connected(*self, new_trace.depth),
            r is Ok ==> r->Ok_0 == location_of(*self, new_trace.depth),
            r is Err ==> r->Err_0 == TraceError::DisconnectedTrace,
        decreases *self,
    {
        if new_trace.depth == 0 {
            Ok(0)
        } else if self.depth == new_trace.depth - 1 {
            Ok(self.inner.len())
        } else if self.inner.len() == 0 {
            Err(TraceError::DisconnectedTrace)
        } else {
            let k = self.inner.len() - 1;
            self.inner[k].location(new_trace)
        }
    }

    fn attach(&mut self, new_trace: CallTrace)
        requires
            connected(*old(self), new_trace.depth),
        ensures
            added(*old(self), *final(self), new_trace),
        decreases *old(self),
    {
        if new_trace.depth == 0 {
        } else if self.depth == new_trace.depth - 1 {
            self.inner.push(new_trace);
        } else {
            let k = self.inner.len() - 1;
            self.inner[k].attach(new_trace);
            assert(self.inner@.drop_last() =~= old(self).inner@.drop_last());
        }
    }

    /// Records a newly opened call under the frame that is open at the depth
    /// above it. A root fragment (depth 0) leaves the tree as it is.
    pub fn add_trace(&mut self, new_trace: CallTrace) -> (r: Result<(), TraceError>)
        ensures
            r is Ok <==> connected(*old(self), new_trace.depth),
            r is Ok ==> added(*old(self), *final(self), new_trace),
            r is Err ==> r->Err_0 == TraceError::DisconnectedTrace && *final(self) == *old(self),
    {
        match self.location(&new_trace) {
            Ok(_) => {
                self.attach(new_trace);
                Ok(())
            },
            Err(e) => Err(e),
        }
    }

    /// Overwrites the result fields with those of `new_trace`; `depth`,
    /// `location`, `created` and the inner calls stay.
    fn update(&mut self, new_trace: CallTrace)
        ensures
            overwritten(*old(self), *final(self), new_trace),
    {
        self.success = new_trace.success;
        self.addr = new_trace.addr;
        self.cost = new_trace.cost;
        self.output = new_trace.output;
        self.logs = new_trace.logs;
        self.data = new_trace.data;
    }

    fn can_update(&self, new_trace: &CallTrace) -> (r: bool)
        ensures
            r == updatable(*self, *new_trace),
        decreases *self,
    {
        if new_trace.depth == 0 {
            true
        } else if self.depth == new_trace.depth - 1 {
            new_trace.location < self.inner.len()
        } else if self.inner.len() == 0 {
            false
        } else {
            let k = self.inner.len() - 1;
            self.inner[k].can_update(new_trace)
        }
    }

    fn complete(&mut self, new_trace: CallTrace)
        requires
            updatable(*old(self), new_trace),
        ensures
            updated(*old(self), *final(self), new_trace),
        decreases *old(self),
    {
        if new_trace.depth == 0 {
            self.update(new_trace);
        } else if self.depth == new_trace.depth - 1 {
            let loc = new_trace.location;
            self.inner[loc].update(new_trace);
        } else {
            let k = self.inner.len() - 1;
            self.inner[k].complete(new_trace);
            assert(self.inner@.drop_last() =~= old(self).inner@.drop_last());
        }
    }

    /// Completes a previously opened call with its result: the root for a
    /// depth-0 fragment, else the child at `location` of the frame open at the
    /// depth above.
    pub fn update_trace(&mut self, new_trace: CallTrace) -> (r: Result<(), TraceError>)
        ensures
            r is Ok <==> updatable(*old(self), new_trace),
            r is Ok ==> updated(*old(self), *final(self), new_trace),
            r is Err ==> r->Err_0 == TraceError::DisconnectedTrace && *final(self) == *old(self),
    {
        if self.can_update(&new_trace) {
            self.complete(new_trace);
            Ok(())
        } else {
            Err(TraceError::DisconnectedTrace)
        }
    }

    /// Number of logs of this frame and of every frame beneath it.
    pub fn inner_number_of_logs(&self) -> (r: usize)
        requires
            total_logs(*self) <= usize::MAX,
        ensures
            r == total_logs(*self),
        decreases *self,
    {
        let mut total: usize = 0;
        let mut i: usize = 0;
        while i < self.inner.len()
            invariant
                i <= self.inner@.len(),
                total == logs_of_first(*self, i as int),
                total_logs(*self) <= usize::MAX,
            decreases self.inner@.len() - i,
        {
            proof {
                lemma_logs_prefix_le(*self, i as int + 1);
            }
            let n = self.inner[i].inner_number_of_logs();
            total = total + n;
            i = i + 1;
        }
        total + self.logs.len()
    }

    /// Number of frames beneath this one.
    pub fn inner_number_of_inners(&self) -> (r: usize)
        requires
            total_calls(*self) <= usize::MAX,
        ensures
            r == total_calls(*self),
        decreases *self,
    {
        let mut total: usize = 0;
        let mut i: usize = 0;
        while i < self.inner.len()
            invariant
                i <= self.inner@.len(),
                total == calls_of_first(*self, i as int),
                total_calls(*self) <= usize::MAX,
            decreases self.inner@.len() - i,
        {
            proof {
                lemma_calls_prefix_le(*self, i as int + 1);
            }
            let n = self.inner[i].inner_number_of_inners();
            total = total + n;
            i = i + 1;
        }
        total + self.inner.len()
    }

    /// The first frame in depth-first order with this depth and location.
    pub fn get_trace(&self, depth: usize, location: usize) -> (r: Option<&CallTrace>)
        ensures
            match r {
                Some(t) => find(*self, depth, location) == Some(*t),
                None => find(*self, depth, location) is None,
            },
        decreases *self,
    {
        if self.depth == depth && self.location == location {
            return Some(self);
        }
        if self.depth != depth {
            let mut i: usize = 0;
            while i < self.inner.len()
                invariant
                    i <= self.inner@.len(),
                    self.depth != depth,
                    find(*self, depth, location) == find_from(*self, depth, location, i as int),
                decreases self.inner@.len() - i,
            {
                if let Some(t) = self.inner[i].get_trace(depth, location) {
                    return Some(t);
                }
                i = i + 1;
            }
        }
        None
    }
}

/// The logs beneath the first `k` children grow with `k` and stay within the total.
proof fn lemma_logs_prefix_le(t: CallTrace, k: int)
    requires
        0 <= k <= t.inner@.len(),
    ensures
        logs_of_first(t, k) <= logs_of_first(t, t.inner@.len() as int),
        k > 0 ==> total_logs(t.inner@[k - 1]) <= logs_of_first(t, k),
    decreases t.inner@.len() - k,
{
    if k < t.inner@.len() {
        lemma_logs_prefix_le(t, k + 1);
    }
}

/// The frames beneath the first `k` children grow with `k` and stay within the total.
proof fn lemma_calls_prefix_le(t: CallTrace, k: int)
    requires
        0 <= k <= t.inner@.len(),
    ensures
        calls_of_first(t, k) <= calls_of_first(t, t.inner@.len() as int),
        k > 0 ==> total_calls(t.inner@[k - 1]) <= calls_of_first(t, k),
    decreases t.inner@.len() - k,
{
    if k < t.inner@.len() {
        lemma_calls_prefix_le(t, k + 1);
    }
}

} // verus!
