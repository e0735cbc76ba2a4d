//! The ready queue of a stride scheduler.
use vstd::prelude::*;
use std::collections::VecDeque;
use crate::config::BIG_STRIDE;

verus! {

/// What the scheduler reads of a task: its id, its current stride (pass value)
/// and its priority.
#[derive(Clone, Copy, PartialEq, Eq, Structural, Debug)]
pub struct StrideTask {
    pub pid: usize,
    pub stride: usize,
    pub prio: usize,
}

/// Whether `k` is the position the scheduler picks in `q`: a task of least
/// stride, the first one (the earliest queued) among equals.
pub open spec fn is_fetch_index(q: Seq<StrideTask>, k: int) -> bool {
    &&& 0 <= k < q.len()
    &&& forall|j: int| 0 <= j < q.len() ==> q[k].stride <= #[trigger] q[j].stride
    &&& forall|j: int| 0 <= j < k ==> q[k].stride < #[trigger] q[j].stride
}

/// The position the scheduler picks in a non-empty queue `q`.
pub open spec fn fetch_index(q: Seq<StrideTask>) -> int {
    choose|k: int| is_fetch_index(q, k)
}

/// The task `t` after it has been picked once: its stride advanced by `BIG_STRIDE / prio`.
pub open spec fn advanced(t: StrideTask) -> StrideTask {
    StrideTask { stride: (t.stride + BIG_STRIDE / t.prio) as usize, ..t }
}

/// Picking a task advances its stride by the whole number of times its
/// priority fits into `BIG_STRIDE`, and changes nothing else: for a priority of
/// at most `BIG_STRIDE` the stride strictly grows.
pub proof fn law_advance_step(t: StrideTask)
    requires
        t.prio >= 1,
        t.stride + BIG_STRIDE / t.prio <= usize::MAX,
    ensures
        advanced(t).pid == t.pid,
        advanced(t).prio == t.prio,
        advanced(t).stride >= t.stride,
        (advanced(t).stride - t.stride) * t.prio <= BIG_STRIDE,
        BIG_STRIDE < (advanced(t).stride - t.stride + 1) * t.prio,
        t.prio <= BIG_STRIDE ==> advanced(t).stride > t.stride,
{
    let p = t.prio as int;
    let q = BIG_STRIDE as int / p;
    let r = BIG_STRIDE as int % p;
    assert(BIG_STRIDE as int == q * p + r && 0 <= r < p) by (nonlinear_arith)
        requires
            p >= 1,
            q == BIG_STRIDE as int / p,
            r == BIG_STRIDE as int % p,
    ;
    assert(advanced(t).stride - t.stride == q);
    assert(q * p <= BIG_STRIDE);
    assert(BIG_STRIDE < (q + 1) * p) by (nonlinear_arith)
        requires
            BIG_STRIDE as int == q * p + r,
            r < p,
    ;
    if p <= BIG_STRIDE {
        assert(q >= 1) by (nonlinear_arith)
            requires
                BIG_STRIDE as int == q * p + r,
                0 <= r < p,
                p <= BIG_STRIDE,
        ;
    }
}

/// Whether picking from `q` can advance the picked task without a division by
/// zero or an overflow.
pub open spec fn can_fetch(q: Seq<StrideTask>) -> bool {
    q.len() > 0 ==> {
        &&& q[fetch_index(q)].prio > 0
        &&& q[fetch_index(q)].stride + BIG_STRIDE / q[fetch_index(q)].prio <= usize::MAX
    }
}

/// The picked position is unique: any position meeting the rule is the one `fetch_index` names.
pub proof fn lemma_fetch_index_unique(q: Seq<StrideTask>, k: int)
    requires
        is_fetch_index(q, k),
    ensures
        fetch_index(q) == k,
{
    let c = fetch_index(q);
    assert(is_fetch_index(q, c));
    if c < k {
        assert(q[c].stride < q[k].stride);
        assert(q[k].stride <= q[c].stride);
    } else if k < c {
        assert(q[k].stride < q[c].stride);
        assert(q[c].stride <= q[k].stride);
    }
}

/// A non-empty queue has a position the scheduler picks.
pub proof fn lemma_fetch_index_exists(q: Seq<StrideTask>)
    requires
        q.len() > 0,
    ensures
        is_fetch_index(q, fetch_index(q)),
    decreases q.len(),
{
    if q.len() == 1 {
        assert(is_fetch_index(q, 0));
    } else {
        let p = q.drop_last();
        lemma_fetch_index_exists(p);
        let k = fetch_index(p);
        let last = q.len() - 1;
        if q[last].stride < p[k].stride {
            assert forall|j: int| 0 <= j < q.len() implies q[last].stride <= #[trigger] q[j].stride by {
                if j < last {
                    assert(p[j] == q[j]);
                    assert(p[k].stride <= p[j].stride);
                }
            }
            assert forall|j: int| 0 <= j < last implies q[last].stride < #[trigger] q[j].stride by {
                assert(p[j] == q[j]);
                assert(p[k].stride <= p[j].stride);
            }
            assert(is_fetch_index(q, last));
        } else {
            assert forall|j: int| 0 <= j < q.len() implies q[k].stride <= #[trigger] q[j].stride by {
                if j < last {
                    assert(p[j] == q[j]);
                }
            }
            assert forall|j: int| 0 <= j < k implies q[k].stride < #[trigger] q[j].stride by {
                assert(p[j] == q[j]);
            }
            assert(is_fetch_index(q, k));
        }
    }
}

/// The ready queue of tasks waiting to run, in arrival order.
pub struct TaskManager {
    ready_queue: VecDeque<StrideTask>,
}

impl View for TaskManager {
    type V = Seq<StrideTask>;

    closed spec fn view(&self) -> Seq<StrideTask> {
        self.ready_queue@
    }
}

impl TaskManager {
    /// An empty ready queue.
    pub fn new() -> (r: TaskManager)
        ensures
            r@ == Seq::<StrideTask>::empty(),
    {
        TaskManager { ready_queue: VecDeque::new() }
    }

    /// Number of tasks waiting.
    pub fn len(&self) -> (r: usize)
        ensures
            r == self@.len(),
    {
        self.ready_queue.len()
    }

    /// Puts `task` at the back of the ready queue.
    pub fn add(&mut self, task: StrideTask)
        ensures
            final(self)@ == old(self)@.push(task),
    {
        self.ready_queue.push_back(task);
    }

    /// Position of the task the scheduler picks: the least stride, the first among equals.
    fn fetch_position(&self) -> (r: usize)
        requires
            self@.len() > 0,
        ensures
            r == fetch_index(self@),
            is_fetch_index(self@, r as int),
    {
        let n = self.ready_queue.len();
        let ghost q = self.ready_queue@;
        let mut min_index: usize = 0;
        let mut min_stride: usize = self.ready_queue[0].stride;
        let mut index: usize = 1;
        while index < n
            invariant
                n == q.len(),
                q == self.ready_queue@,
                1 <= index <= n,
                min_index < index,
                min_stride == q[min_index as int].stride,
                is_fetch_index(q.take(index as int), min_index as int),
            decreases n - index,
        {
            let task_stride = self.ready_queue[index].stride;
            proof {
                assert(q.take(index + 1).drop_last() =~= q.take(index as int));
            }
            if task_stride < min_stride {
                min_index = index;
                min_stride = task_stride;
                proof {
                    let p = q.take(index + 1);
                    let p0 = q.take(index as int);
                    assert forall|j: int| 0 <= j < p.len() implies p[min_index as int].stride
                        <= #[trigger] p[j].stride by {
                        if j < index {
                            assert(p0[j] == p[j]);
                        }
                    }
                    assert forall|j: int| 0 <= j < min_index implies p[min_index as int].stride
                        < #[trigger] p[j].stride by {
                        assert(p0[j] == p[j]);
                    }
                    assert(is_fetch_index(p, min_index as int));
                }
            } else {
                proof {
                    let p = q.take(index + 1);
                    let p0 = q.take(index as int);
                    assert forall|j: int| 0 <= j < p.len() implies p[min_index as int].stride
                        <= #[trigger] p[j].stride by {
                        if j < index {
                            assert(p0[j] == p[j]);
                        }
                    }
                    assert forall|j: int| 0 <= j < min_index implies p[min_index as int].stride
                        < #[trigger] p[j].stride by {
                        assert(p0[j] == p[j]);
                    }
                    assert(p0[min_index as int] == p[min_index as int]);
                }
            }
            index = index + 1;
        }
        proof {
            assert(q.take(n as int) =~= q);
            lemma_fetch_index_unique(q, min_index as int);
        }
        min_index
    }

    /// The task the next `fetch` takes out (before its stride advances); `None`
    /// when no task waits.
    pub fn peek(&self) -> (r: Option<StrideTask>)
        ensures
            self@.len() == 0 ==> r.is_none(),
            self@.len() > 0 ==> r == Some(self@[fetch_index(self@)]),
    {
        if self.ready_queue.len() == 0 {
            return None;
        }
        let k = self.fetch_position();
        Some(self.ready_queue[k])
    }

    /// Takes out the task of least stride (the first one among equals), advances
    /// its stride by `BIG_STRIDE / prio` and returns it; `None` when no task waits.
    pub fn fetch(&mut self) -> (r: Option<StrideTask>)
        requires
            can_fetch(old(self)@),
        ensures
            match r {
                None => {
                    &&& old(self)@.len() == 0
                    &&& final(self)@ == old(self)@
                },
                Some(t) => {
                    &&& old(self)@.len() > 0
                    &&& is_fetch_index(old(self)@, fetch_index(old(self)@))
                    &&& t == advanced(old(self)@[fetch_index(old(self)@)])
                    &&& final(self)@ == old(self)@.remove(fetch_index(old(self)@))
                },
            },
    {
        let n = self.ready_queue.len();
        if n == 0 {
            return None;
        }
        let min_index = self.fetch_position();
        let removed = self.ready_queue.remove(min_index);
        match removed {
            Some(mut task) => {
                task.stride = task.stride + BIG_STRIDE / task.prio;
                Some(task)
            },
            None => {
                assert(false);
                None
            },
        }
    }
}

/// A task added to an empty queue is the one fetched next (with its stride
/// advanced), and the queue is empty again afterwards.
pub proof fn law_add_then_fetch_on_empty(t: StrideTask)
    ensures
        Seq::empty().push(t)[fetch_index(Seq::empty().push(t))] == t,
        is_fetch_index(Seq::empty().push(t), 0),
        fetch_index(Seq::empty().push(t)) == 0,
        Seq::empty().push(t).remove(0) == Seq::<StrideTask>::empty(),
{
    let q = Seq::<StrideTask>::empty().push(t);
    assert(is_fetch_index(q, 0));
    lemma_fetch_index_unique(q, 0);
    assert(q.remove(0) =~= Seq::<StrideTask>::empty());
}

/// The fetched task has a stride no greater than any task that stays queued, and
/// every other task stays queued in its order: the queue after a fetch is the old
/// queue without the fetched position.
pub proof fn law_fetch_takes_least_stride(q: Seq<StrideTask>, j: int)
    requires
        q.len() > 0,
        0 <= j < q.len() - 1,
    ensures
        q[fetch_index(q)].stride <= q.remove(fetch_index(q))[j].stride,
        q.remove(fetch_index(q)).len() == q.len() - 1,
{
    lemma_fetch_index_exists(q);
    let k = fetch_index(q);
    if j < k {
        assert(q.remove(k)[j] == q[j]);
    } else {
        assert(q.remove(k)[j] == q[j + 1]);
    }
}

/// Whether every stride of `q` is within `BIG_STRIDE / 2` of every other.
pub open spec fn strides_within_half_step(q: Seq<StrideTask>) -> bool {
    forall|i: int, j: int|
        0 <= i < q.len() && 0 <= j < q.len() ==> #[trigger] q[i].stride <= #[trigger] q[j].stride
            + BIG_STRIDE / 2
}

/// Whether every task of `q` has a priority of at least 2.
pub open spec fn priorities_at_least_two(q: Seq<StrideTask>) -> bool {
    forall|i: int| 0 <= i < q.len() ==> #[trigger] q[i].prio >= 2
}

/// Stride scheduling stays balanced: when every priority is at least 2 and all
/// strides lie within `BIG_STRIDE / 2` of each other, fetching a task and putting
/// it back keeps all strides within `BIG_STRIDE / 2` of each other.
pub proof fn law_strides_stay_within_half_step(q: Seq<StrideTask>)
    requires
        q.len() > 0,
        priorities_at_least_two(q),
        strides_within_half_step(q),
        can_fetch(q),
    ensures
        strides_within_half_step(q.remove(fetch_index(q)).push(advanced(q[fetch_index(q)]))),
{
    lemma_fetch_index_exists(q);
    let k = fetch_index(q);
    let m = q[k].stride;
    let t = advanced(q[k]);
    let q2 = q.remove(k).push(t);
    let p = q[k].prio;
    assert(BIG_STRIDE / p <= BIG_STRIDE / 2) by (nonlinear_arith)
        requires
            p >= 2,
    ;
    assert forall|i: int| 0 <= i < q2.len() implies m <= #[trigger] q2[i].stride && q2[i].stride <= m
        + BIG_STRIDE / 2 by {
        if i < k {
            assert(q2[i] == q[i]);
            assert(q[i].stride <= q[k].stride + BIG_STRIDE / 2);
        } else if i < q.len() - 1 {
            assert(q2[i] == q[i + 1]);
            assert(q[i + 1].stride <= q[k].stride + BIG_STRIDE / 2);
        } else {
            assert(q2[i] == t);
        }
    }
}

} // verus!
