use vstd::prelude::*;

verus! {

/// A first-in, first-out queue. Its model is the sequence of its items, the
/// front first.
pub struct Queue<T> {
    items: Vec<T>,
}

impl<T> View for Queue<T> {
    type V = Seq<T>;

    closed spec fn view(&self) -> Seq<T> {
        self.items@
    }
}

impl<T> Default for Queue<T> {
    fn default() -> (r: Self)
        ensures
            r@ == Seq::<T>::empty(),
    {
        Self::new()
    }
}

impl<T> Queue<T> {
    /// An empty queue.
    pub fn new() -> (r: Self)
        ensures
            r@ == Seq::<T>::empty(),
    {
        Queue { items: Vec::new() }
    }

    /// Puts `item` at the back.
    pub fn enqueue(&mut self, item: T)
        ensures
            final(self)@ == old(self)@.push(item),
    {
        self.items.push(item);
    }

    /// Takes the item at the front. The queue must not be empty.
    pub fn dequeue(&mut self) -> (r: Option<T>)
        requires
            old(self)@.len() > 0,
        ensures
            r == Some(old(self)@[0]),
            final(self)@ == old(self)@.drop_first(),
    {
        let item = self.items.remove(0);
        proof {
            assert(self.items@ =~= old(self)@.drop_first());
        }
        Some(item)
    }

    /// Whether the queue holds no item.
    pub fn is_empty(&self) -> (r: bool)
        ensures
            r == (self@.len() == 0),
    {
        self.items.is_empty()
    }

    /// The number of items.
    pub fn size(&self) -> (r: usize)
        ensures
            r == self@.len(),
    {
        self.items.len()
    }
}

/// Items leave in the order in which they came: putting `x` at the back of a
/// non-empty queue and then taking the front gives the same front, and leaves
/// the same queue, as taking the front first and then putting `x` at the back.
pub proof fn law_fifo_commutes<T>(q: Seq<T>, x: T)
    requires
        q.len() > 0,
    ensures
        q.push(x)[0] == q[0],
        q.push(x).drop_first() == q.drop_first().push(x),
{
    assert(q.push(x).drop_first() =~= q.drop_first().push(x));
}

/// An item put into an empty queue is the next one out, and the queue is
/// empty again after it leaves.
pub proof fn law_enqueue_then_dequeue_empty<T>(x: T)
    ensures
        Seq::<T>::empty().push(x)[0] == x,
        Seq::<T>::empty().push(x).drop_first() == Seq::<T>::empty(),
{
    assert(Seq::<T>::empty().push(x).drop_first() =~= Seq::<T>::empty());
}

/// The queue that enqueueing `items` one after the other onto `q` leaves.
pub open spec fn enqueued<T>(q: Seq<T>, items: Seq<T>) -> Seq<T>
    decreases items.len(),
{
    if items.len() == 0 {
        q
    } else {
        enqueued(q, items.drop_last()).push(items.last())
    }
}

/// Enqueueing items one after the other keeps them in their order behind
/// what was already queued: the queue holds `q` followed by `items`, so the
/// items of `q` leave first and then `items` in the order they came.
pub proof fn law_enqueue_keeps_order<T>(q: Seq<T>, items: Seq<T>)
    ensures
        enqueued(q, items) == q + items,
    decreases items.len(),
{
    if items.len() > 0 {
        law_enqueue_keeps_order(q, items.drop_last());
        assert(q + items =~= (q + items.drop_last()).push(items.last()));
    } else {
        assert(q + items =~= q);
    }
}

/// One step of a run of a queue: putting an item at the back, or taking the
/// front.
pub enum QueueOp<T> {
    Enqueue(T),
    Dequeue,
}

/// The model of the queue after the steps `ops`, starting from `q`.
pub open spec fn apply_ops<T>(q: Seq<T>, ops: Seq<QueueOp<T>>) -> Seq<T>
    decreases ops.len(),
{
    if ops.len() == 0 {
        q
    } else {
        let before = apply_ops(q, ops.drop_last());
        match ops.last() {
            QueueOp::Enqueue(x) => before.push(x),
            QueueOp::Dequeue => before.drop_first(),
        }
    }
}

/// Every dequeue of the run `ops` from `q` finds the queue non-empty.
pub open spec fn dequeues_find_items<T>(q: Seq<T>, ops: Seq<QueueOp<T>>) -> bool {
    forall|i: int|
        0 <= i < ops.len() ==> (#[trigger] ops[i] is Dequeue ==> apply_ops(q, ops.take(i)).len() > 0)
}

/// The items that the run `ops` enqueues, in enqueue order.
pub open spec fn enqueued_items<T>(ops: Seq<QueueOp<T>>) -> Seq<T>
    decreases ops.len(),
{
    if ops.len() == 0 {
        Seq::empty()
    } else {
        let before = enqueued_items(ops.drop_last());
        match ops.last() {
            QueueOp::Enqueue(x) => before.push(x),
            QueueOp::Dequeue => before,
        }
    }
}

/// The number of dequeues in the run `ops`.
pub open spec fn dequeue_count<T>(ops: Seq<QueueOp<T>>) -> nat
    decreases ops.len(),
{
    if ops.len() == 0 {
        0
    } else {
        dequeue_count(ops.drop_last()) + if ops.last() is Dequeue {
            1nat
        } else {
            0nat
        }
    }
}

/// Any run of `n` enqueues and `m` dequeues, in any interleaving, on a new
/// queue, where every dequeue finds an item: the queue then holds the last
/// `n - m` items enqueued, in enqueue order, so its size is `n - m` and it is
/// empty exactly when `n == m`.
pub proof fn law_queue_run<T>(ops: Seq<QueueOp<T>>)
    requires
        dequeues_find_items(Seq::<T>::empty(), ops),
    ensures
        dequeue_count(ops) <= enqueued_items(ops).len(),
        apply_ops(Seq::<T>::empty(), ops) == enqueued_items(ops).subrange(
            dequeue_count(ops) as int,
            enqueued_items(ops).len() as int,
        ),
        apply_ops(Seq::<T>::empty(), ops).len() == enqueued_items(ops).len() - dequeue_count(ops),
        (apply_ops(Seq::<T>::empty(), ops).len() == 0) == (enqueued_items(ops).len()
            == dequeue_count(ops)),
    decreases ops.len(),
{
    let e = Seq::<T>::empty();
    if ops.len() == 0 {
        assert(enqueued_items(ops).subrange(0, 0) =~= e);
    } else {
        let p = ops.drop_last();
        assert forall|i: int| 0 <= i < p.len() implies (#[trigger] p[i] is Dequeue ==> apply_ops(
            e,
            p.take(i),
        ).len() > 0) by {
            assert(p.take(i) =~= ops.take(i));
            assert(p[i] == ops[i]);
        }
        law_queue_run(p);
        let items = enqueued_items(p);
        let m = dequeue_count(p) as int;
        match ops.last() {
            QueueOp::Enqueue(x) => {
                assert(items.push(x).subrange(m, items.len() + 1 as int) =~= items.subrange(
                    m,
                    items.len() as int,
                ).push(x));
            },
            QueueOp::Dequeue => {
                let last = ops.len() - 1;
                assert(ops[last] is Dequeue);
                assert(ops.take(last) =~= p);
                assert(items.subrange(m, items.len() as int).drop_first() =~= items.subrange(
                    m + 1,
                    items.len() as int,
                ));
            },
        }
    }
}

/// A queue is empty exactly when its size is zero; each enqueue adds one to
/// the size and each dequeue takes one away.
pub proof fn law_size<T>(q: Seq<T>, x: T)
    ensures
        (q.len() == 0) == (q =~= Seq::<T>::empty()),
        q.push(x).len() == q.len() + 1,
        q.len() > 0 ==> q.drop_first().len() == q.len() - 1,
{
}

} // verus!
