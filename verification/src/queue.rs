//! The queue of pending spawn requests, kept in a `queues::Queue`.

use crate::address::MapAddress;
use queues::IsQueue;
use queues::Queue;
use vstd::prelude::*;

verus! {

/// One pending spawn: the cell to fill, a size hint taken from the noise
/// value, and the cell edge of the area that asked for it.
#[derive(Clone, Copy, Debug, PartialEq, Eq, Structural)]
pub struct AsteroidData {
    pub address: MapAddress,
    pub size: i32,
    pub scale: i32,
}

/// `queues::Queue`, held as an opaque value: what is known of it is what
/// the four calls below are trusted to do.
#[verifier::external_type_specification]
#[verifier::external_body]
#[verifier::reject_recursive_types(T)]
pub struct ExQueue<T: Clone>(Queue<T>);

/// What a `queues::Queue` holds, oldest item first.
pub uninterp spec fn queued_items(queue: Queue<AsteroidData>) -> Seq<AsteroidData>;

/// Calls `Queue::new`. Trusted, not proved: the new queue holds nothing.
#[verifier::external_body]
fn queue_new() -> (queue: Queue<AsteroidData>)
    ensures
        queued_items(queue) == Seq::<AsteroidData>::empty(),
{
    Queue::new()
}

/// Calls `Queue::add`. Trusted, not proved: the item is appended behind all
/// others, and the call cannot fail.
#[verifier::external_body]
fn queue_add(queue: &mut Queue<AsteroidData>, item: AsteroidData)
    ensures
        queued_items(*final(queue)) == queued_items(*old(queue)).push(item),
{
    let _ = queue.add(item);
}

/// Calls `Queue::remove`. Trusted, not proved: the oldest item leaves the
/// queue and is returned; an empty queue stays empty and gives nothing.
#[verifier::external_body]
fn queue_remove(queue: &mut Queue<AsteroidData>) -> (item: Option<AsteroidData>)
    ensures
        queued_items(*old(queue)).len() == 0 ==> item.is_none() && queued_items(*final(queue))
            == queued_items(*old(queue)),
        queued_items(*old(queue)).len() > 0 ==> item == Some(queued_items(*old(queue))[0])
            && queued_items(*final(queue)) == queued_items(*old(queue)).subrange(
            1,
            queued_items(*old(queue)).len() as int,
        ),
{
    match queue.remove() {
        Ok(item) => Some(item),
        Err(_) => None,
    }
}

/// Calls `Queue::size`. Trusted, not proved: it is the number of items held.
#[verifier::external_body]
fn queue_size(queue: &Queue<AsteroidData>) -> (size: usize)
    ensures
        size == queued_items(*queue).len(),
{
    queue.size()
}

/// The queue after `request` joined it: it stands behind all others.
pub open spec fn spec_enqueue(items: Seq<AsteroidData>, request: AsteroidData) -> Seq<
    AsteroidData,
> {
    items.push(request)
}

/// What leaves a queue, and what stays: the oldest request leaves, and an
/// empty queue gives nothing.
pub open spec fn spec_dequeue(items: Seq<AsteroidData>) -> (
    Option<AsteroidData>,
    Seq<AsteroidData>,
) {
    if items.len() == 0 {
        (None, items)
    } else {
        (Some(items[0]), items.subrange(1, items.len() as int))
    }
}

/// The requests that the first `count` removals give, and what stays.
pub open spec fn spec_drain(items: Seq<AsteroidData>, count: nat) -> (
    Seq<AsteroidData>,
    Seq<AsteroidData>,
)
    decreases count,
{
    if count == 0 {
        (Seq::empty(), items)
    } else {
        let (taken, rest) = spec_drain(items, (count - 1) as nat);
        match spec_dequeue(rest).0 {
            Some(request) => (taken.push(request), spec_dequeue(rest).1),
            None => (taken, rest),
        }
    }
}

/// Requests leave a queue in the order in which they joined it, each once:
/// the first `count` removals give the `count` oldest requests in their
/// order and leave the others.
pub proof fn lemma_drain_keeps_order(items: Seq<AsteroidData>, count: nat)
    requires
        count <= items.len(),
    ensures
        spec_drain(items, count).0 == items.take(count as int),
        spec_drain(items, count).1 == items.skip(count as int),
    decreases count,
{
    if count == 0 {
        assert(items.take(0) =~= Seq::<AsteroidData>::empty());
        assert(items.skip(0) =~= items);
    } else {
        lemma_drain_keeps_order(items, (count - 1) as nat);
        let rest = items.skip(count - 1);
        assert(rest[0] == items[count - 1]);
        assert(items.take(count - 1).push(items[count - 1]) =~= items.take(count as int));
        assert(rest.subrange(1, rest.len() as int) =~= items.skip(count as int));
    }
}

/// Three requests that join a queue one after the other leave it in that
/// order behind what was pending before, and then the queue is empty.
pub proof fn lemma_queue_is_fifo(
    pending: Seq<AsteroidData>,
    first: AsteroidData,
    second: AsteroidData,
    third: AsteroidData,
)
    ensures
        ({
            let filled = spec_enqueue(spec_enqueue(spec_enqueue(pending, first), second), third);
            &&& spec_drain(filled, filled.len()).0 == pending + seq![first, second, third]
            &&& spec_drain(filled, filled.len()).1 == Seq::<AsteroidData>::empty()
            &&& spec_dequeue(spec_drain(filled, filled.len()).1).0.is_none()
        }),
{
    let filled = spec_enqueue(spec_enqueue(spec_enqueue(pending, first), second), third);
    lemma_drain_keeps_order(filled, filled.len());
    assert(filled.take(filled.len() as int) =~= pending + seq![first, second, third]);
    assert(filled.skip(filled.len() as int) =~= Seq::<AsteroidData>::empty());
}

/// The pending spawn requests, first in, first out, with no bound on their
/// number. Nothing is left out as a duplicate: a cell that two scans both
/// evaluate before the queue is drained is pending twice, and `len` tells
/// how far the queue has grown.
pub struct SpawnQueue {
    queue: Queue<AsteroidData>,
}

impl View for SpawnQueue {
    type V = Seq<AsteroidData>;

    /// The pending requests, oldest first.
    closed spec fn view(&self) -> Seq<AsteroidData> {
        queued_items(self.queue)
    }
}

impl SpawnQueue {
    /// An empty queue.
    pub fn new() -> (queue: SpawnQueue)
        ensures
            queue@ == Seq::<AsteroidData>::empty(),
    {
        SpawnQueue { queue: queue_new() }
    }

    /// Appends `request` behind all pending requests.
    pub fn enqueue(&mut self, request: AsteroidData)
        ensures
            final(self)@ == spec_enqueue(old(self)@, request),
    {
        queue_add(&mut self.queue, request);
    }

    /// Removes and returns the oldest pending request, or `None` when
    /// nothing is pending.
    pub fn dequeue(&mut self) -> (request: Option<AsteroidData>)
        ensures
            (request, final(self)@) == spec_dequeue(old(self)@),
    {
        queue_remove(&mut self.queue)
    }

    /// The number of pending requests.
    pub fn len(&self) -> (depth: usize)
        ensures
            depth == self@.len(),
    {
        queue_size(&self.queue)
    }

    /// Whether nothing is pending.
    pub fn is_empty(&self) -> (empty: bool)
        ensures
            empty == (self@.len() == 0),
    {
        queue_size(&self.queue) == 0
    }
}

} // verus!
