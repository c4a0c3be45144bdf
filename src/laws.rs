use vstd::prelude::*;
use crate::trace::{CallTrace, same_frame, updatable, updated, added, connected, location_of, total_calls, calls_of_first, total_logs, logs_of_first};

verus! {

/// Every child sits one level below its parent and carries its own index
/// among its siblings as its location, all the way down.
pub open spec fn well_formed(t: CallTrace) -> bool
    decreases t,
{
    forall|i: int|
        #![trigger t.inner@[i]]
        0 <= i < t.inner@.len() ==> {
            &&& t.inner@[i].depth == t.depth + 1
            &&& t.inner@[i].location == i
            &&& well_formed(t.inner@[i])
        }
}

/// `a` and `b` hold the same values in every frame.
pub open spec fn same_tree(a: CallTrace, b: CallTrace) -> bool
    decreases a,
{
    &&& same_frame(a, b)
    &&& a.inner@.len() == b.inner@.len()
    &&& forall|i: int|
        #![trigger a.inner@[i]]
        0 <= i < a.inner@.len() ==> same_tree(a.inner@[i], b.inner@[i])
}

/// `t` is a single chain of `k` calls below it, with no branching.
pub open spec fn is_path(t: CallTrace, k: nat) -> bool
    decreases k,
{
    if k == 0 {
        t.inner@.len() == 0
    } else {
        t.inner@.len() == 1 && is_path(t.inner@[0], (k - 1) as nat)
    }
}

/// Sum of a sequence of naturals.
pub open spec fn sum_nat(s: Seq<nat>) -> nat
    decreases s.len(),
{
    if s.len() == 0 {
        0
    } else {
        sum_nat(s.drop_last()) + s.last()
    }
}

/// The frames of `t` in depth-first order, `t` first.
pub open spec fn frames(t: CallTrace) -> Seq<CallTrace>
    decreases t, t.inner@.len() + 1,
{
    seq![t] + frames_of_first(t, t.inner@.len() as int)
}

/// The frames beneath the first `k` children of `t`, children included.
pub open spec fn frames_of_first(t: CallTrace, k: int) -> Seq<CallTrace>
    decreases t, k,
{
    if k <= 0 || k > t.inner@.len() {
        Seq::empty()
    } else {
        frames_of_first(t, k - 1) + frames(t.inner@[k - 1])
    }
}

/// Number of logs attached to the frames of a sequence.
pub open spec fn logs_in_frames(s: Seq<CallTrace>) -> nat
    decreases s.len(),
{
    if s.len() == 0 {
        0
    } else {
        logs_in_frames(s.drop_last()) + s.last().logs@.len()
    }
}

proof fn lemma_same_tree_refl(t: CallTrace)
    ensures
        same_tree(t, t),
    decreases t,
{
    assert forall|i: int| 0 <= i < t.inner@.len() implies same_tree(t.inner@[i], t.inner@[i]) by {
        lemma_same_tree_refl(t.inner@[i]);
    }
}

/// Completing a call again with the same close fragment changes no value:
/// the first completion leaves the fragment's frame in place, and the second
/// yields a tree equal, frame by frame, to the first.
pub proof fn lemma_update_idempotent(a: CallTrace, b: CallTrace, c: CallTrace, n: CallTrace)
    requires
        updated(a, b, n),
        updated(b, c, n),
    ensures
        updatable(b, n),
        same_tree(b, c),
    decreases a,
{
    if n.depth == 0 {
        assert forall|i: int| 0 <= i < b.inner@.len() implies same_tree(b.inner@[i], c.inner@[i]) by {
            lemma_same_tree_refl(b.inner@[i]);
        }
    } else if a.depth == n.depth - 1 {
        let l = n.location as int;
        assert forall|i: int| 0 <= i < b.inner@.len() implies same_tree(b.inner@[i], c.inner@[i]) by {
            lemma_same_tree_refl(b.inner@[i]);
            if i == l {
                assert(c.inner@[i].inner@ == b.inner@[i].inner@);
                assert forall|j: int| 0 <= j < b.inner@[i].inner@.len() implies same_tree(
                    b.inner@[i].inner@[j],
                    c.inner@[i].inner@[j],
                ) by {
                    lemma_same_tree_refl(b.inner@[i].inner@[j]);
                }
            }
        }
    } else {
        let k = a.inner@.len() - 1;
        lemma_update_idempotent(a.inner@.last(), b.inner@.last(), c.inner@.last(), n);
        assert forall|i: int| 0 <= i < b.inner@.len() implies same_tree(b.inner@[i], c.inner@[i]) by {
            if i < k {
                assert(b.inner@[i] == b.inner@.drop_last()[i]);
                assert(c.inner@[i] == c.inner@.drop_last()[i]);
                lemma_same_tree_refl(b.inner@[i]);
            }
        }
    }
}

/// Frames beneath the first `k` children agree where the children agree in size.
proof fn lemma_calls_first_eq(a: CallTrace, b: CallTrace, k: int)
    requires
        0 <= k <= a.inner@.len(),
        k <= b.inner@.len(),
        forall|i: int| 0 <= i < k ==> total_calls(#[trigger] a.inner@[i]) == total_calls(b.inner@[i]),
    ensures
        calls_of_first(a, k) == calls_of_first(b, k),
    decreases k,
{
    if k > 0 {
        lemma_calls_first_eq(a, b, k - 1);
        assert(total_calls(a.inner@[k - 1]) == total_calls(b.inner@[k - 1]));
    }
}

proof fn lemma_wf_same_inner(x: CallTrace, y: CallTrace)
    requires
        well_formed(x),
        x.depth == y.depth,
        x.inner@ == y.inner@,
    ensures
        well_formed(y),
        total_calls(x) == total_calls(y),
{
    assert forall|i: int| 0 <= i < y.inner@.len() implies {
        &&& y.inner@[i].depth == y.depth + 1
        &&& y.inner@[i].location == i
        &&& well_formed(y.inner@[i])
    } by {
        assert(x.inner@[i] == y.inner@[i]);
    }
    lemma_calls_first_eq(x, y, x.inner@.len() as int);
}

/// Opening a call keeps the tree well formed and adds exactly one frame: a
/// fragment at a reachable depth, with the location that `location` gives and
/// no inner calls of its own, becomes a child one level below its parent, at
/// its own index.
pub proof fn lemma_add_keeps_shape(a: CallTrace, b: CallTrace, n: CallTrace)
    requires
        well_formed(a),
        n.depth > 0,
        connected(a, n.depth),
        n.location == location_of(a, n.depth),
        n.inner@.len() == 0,
        added(a, b, n),
    ensures
        well_formed(b),
        total_calls(b) == total_calls(a) + 1,
        b.depth == a.depth,
        b.location == a.location,
    decreases a,
{
    let len = a.inner@.len() as int;
    if a.depth == n.depth - 1 {
        assert(well_formed(n));
        assert forall|i: int| 0 <= i < b.inner@.len() implies {
            &&& b.inner@[i].depth == b.depth + 1
            &&& b.inner@[i].location == i
            &&& well_formed(b.inner@[i])
        } by {
            if i < len {
                assert(b.inner@[i] == a.inner@[i]);
            }
        }
        assert forall|i: int| 0 <= i < len implies total_calls(#[trigger] a.inner@[i]) == total_calls(
            b.inner@[i],
        ) by {
            assert(b.inner@[i] == a.inner@[i]);
        }
        lemma_calls_first_eq(a, b, len);
        assert(total_calls(n) == 0);
    } else {
        let k = len - 1;
        lemma_add_keeps_shape(a.inner@.last(), b.inner@.last(), n);
        assert forall|i: int| 0 <= i < b.inner@.len() implies {
            &&& b.inner@[i].depth == b.depth + 1
            &&& b.inner@[i].location == i
            &&& well_formed(b.inner@[i])
        } by {
            assert(a.inner@[i].depth == a.depth + 1);
            if i < k {
                assert(b.inner@[i] == b.inner@.drop_last()[i]);
                assert(a.inner@[i] == a.inner@.drop_last()[i]);
            }
        }
        assert forall|i: int| 0 <= i < k implies total_calls(#[trigger] a.inner@[i]) == total_calls(
            b.inner@[i],
        ) by {
            assert(b.inner@[i] == b.inner@.drop_last()[i]);
            assert(a.inner@[i] == a.inner@.drop_last()[i]);
        }
        lemma_calls_first_eq(a, b, k);
    }
}

/// Completing a call keeps the tree well formed and its number of frames.
pub proof fn lemma_update_keeps_shape(a: CallTrace, b: CallTrace, n: CallTrace)
    requires
        well_formed(a),
        updated(a, b, n),
    ensures
        well_formed(b),
        total_calls(b) == total_calls(a),
        b.depth == a.depth,
        b.location == a.location,
    decreases a,
{
    let len = a.inner@.len() as int;
    if n.depth == 0 {
        lemma_wf_same_inner(a, b);
    } else if a.depth == n.depth - 1 {
        let l = n.location as int;
        lemma_wf_same_inner(a.inner@[l], b.inner@[l]);
        assert forall|i: int| 0 <= i < b.inner@.len() implies {
            &&& b.inner@[i].depth == b.depth + 1
            &&& b.inner@[i].location == i
            &&& well_formed(b.inner@[i])
        } by {
            assert(a.inner@[i].depth == a.depth + 1);
            if i != l {
                assert(b.inner@[i] == a.inner@[i]);
            }
        }
        assert forall|i: int| 0 <= i < len implies total_calls(#[trigger] a.inner@[i]) == total_calls(
            b.inner@[i],
        ) by {
            if i != l {
                assert(b.inner@[i] == a.inner@[i]);
            }
        }
        lemma_calls_first_eq(a, b, len);
    } else {
        let k = len - 1;
        lemma_update_keeps_shape(a.inner@.last(), b.inner@.last(), n);
        assert forall|i: int| 0 <= i < b.inner@.len() implies {
            &&& b.inner@[i].depth == b.depth + 1
            &&& b.inner@[i].location == i
            &&& well_formed(b.inner@[i])
        } by {
            assert(a.inner@[i].depth == a.depth + 1);
            if i < k {
                assert(b.inner@[i] == b.inner@.drop_last()[i]);
                assert(a.inner@[i] == a.inner@.drop_last()[i]);
            }
        }
        assert forall|i: int| 0 <= i < len implies total_calls(#[trigger] a.inner@[i]) == total_calls(
            b.inner@[i],
        ) by {
            if i < k {
                assert(b.inner@[i] == b.inner@.drop_last()[i]);
                assert(a.inner@[i] == a.inner@.drop_last()[i]);
            }
        }
        lemma_calls_first_eq(a, b, len);
    }
}

proof fn lemma_calls_first_sum(t: CallTrace, k: int)
    requires
        0 <= k <= t.inner@.len(),
    ensures
        calls_of_first(t, k) == sum_nat(t.inner@.take(k).map_values(|c: CallTrace| total_calls(c))),
    decreases k,
{
    let f = |c: CallTrace| total_calls(c);
    if k == 0 {
        assert(t.inner@.take(0).map_values(f) =~= Seq::<nat>::empty());
    } else {
        lemma_calls_first_sum(t, k - 1);
        assert(t.inner@.take(k).map_values(f).drop_last() =~= t.inner@.take(k - 1).map_values(f));
    }
}

/// The frames beneath a node are its children and, for each child, the
/// frames beneath that child.
pub proof fn lemma_descendant_calls(t: CallTrace)
    ensures
        total_calls(t) == t.inner@.len() + sum_nat(
            t.inner@.map_values(|c: CallTrace| total_calls(c)),
        ),
{
    lemma_calls_first_sum(t, t.inner@.len() as int);
    assert(t.inner@.take(t.inner@.len() as int) =~= t.inner@);
}

proof fn lemma_logs_in_frames_concat(a: Seq<CallTrace>, b: Seq<CallTrace>)
    ensures
        logs_in_frames(a + b) == logs_in_frames(a) + logs_in_frames(b),
    decreases b.len(),
{
    if b.len() == 0 {
        assert(a + b =~= a);
    } else {
        lemma_logs_in_frames_concat(a, b.drop_last());
        assert((a + b).drop_last() =~= a + b.drop_last());
    }
}

/// The logs counted for a node are those of every frame of its subtree,
/// the node's own included.
pub proof fn lemma_total_logs_all_frames(t: CallTrace)
    ensures
        total_logs(t) == logs_in_frames(frames(t)),
    decreases t, t.inner@.len() + 1,
{
    lemma_logs_of_first_frames(t, t.inner@.len() as int);
    lemma_logs_in_frames_concat(seq![t], frames_of_first(t, t.inner@.len() as int));
    assert(seq![t].drop_last() =~= Seq::<CallTrace>::empty());
    assert(logs_in_frames(Seq::<CallTrace>::empty()) == 0);
    assert(seq![t].last() == t);
    assert(logs_in_frames(seq![t]) == t.logs@.len());
    assert(frames(t) == seq![t] + frames_of_first(t, t.inner@.len() as int));
}

proof fn lemma_logs_of_first_frames(t: CallTrace, k: int)
    requires
        0 <= k <= t.inner@.len(),
    ensures
        logs_of_first(t, k) == logs_in_frames(frames_of_first(t, k)),
    decreases t, k,
{
    if k > 0 {
        lemma_logs_of_first_frames(t, k - 1);
        lemma_total_logs_all_frames(t.inner@[k - 1]);
        lemma_logs_in_frames_concat(frames_of_first(t, k - 1), frames(t.inner@[k - 1]));
    }
}

proof fn lemma_path_same_inner(x: CallTrace, y: CallTrace, k: nat)
    requires
        x.inner@ == y.inner@,
        is_path(x, k),
    ensures
        is_path(y, k),
{
    if k > 0 {
        assert(x.inner@[0] == y.inner@[0]);
    }
}

/// Opening the next call at the bottom of a single chain of `k` calls gives
/// a single chain of `k + 1` calls.
pub proof fn lemma_chain_add(a: CallTrace, b: CallTrace, n: CallTrace, k: nat)
    requires
        well_formed(a),
        is_path(a, k),
        n.depth == a.depth + k + 1,
        n.inner@.len() == 0,
        added(a, b, n),
    ensures
        is_path(b, k + 1),
    decreases k,
{
    if k == 0 {
        assert(a.depth == n.depth - 1);
        assert(b.inner@ =~= seq![n]);
        assert(is_path(b.inner@[0], 0));
    } else {
        assert(a.inner@.last() == a.inner@[0]);
        assert(a.inner@[0].depth == a.depth + 1);
        lemma_chain_add(a.inner@.last(), b.inner@.last(), n, (k - 1) as nat);
        assert(b.inner@[0] == b.inner@.last());
        assert(is_path(b.inner@[0], k));
    }
}

/// Completing a call leaves a single chain of `k` calls a single chain of `k` calls.
pub proof fn lemma_chain_update(a: CallTrace, b: CallTrace, n: CallTrace, k: nat)
    requires
        is_path(a, k),
        updated(a, b, n),
    ensures
        is_path(b, k),
    decreases k,
{
    if n.depth == 0 {
        lemma_path_same_inner(a, b, k);
    } else if a.depth == n.depth - 1 {
        lemma_path_same_inner(a.inner@[0], b.inner@[0], (k - 1) as nat);
    } else {
        assert(a.inner@.last() == a.inner@[0]);
        lemma_chain_update(a.inner@.last(), b.inner@.last(), n, (k - 1) as nat);
        assert(b.inner@[0] == b.inner@.last());
    }
}

} // verus!
