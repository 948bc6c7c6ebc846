use vstd::prelude::*;
use crossbeam_queue::ArrayQueue;

verus! {

#[verifier::external_type_specification]
#[verifier::external_body]
#[verifier::reject_recursive_types(T)]
pub struct ExArrayQueue<T>(ArrayQueue<T>);

/// The scancodes that a queue holds, the oldest first.
pub uninterp spec fn queued(q: ArrayQueue<u8>) -> Seq<u8>;

/// The number of scancodes that a queue was made to hold.
pub uninterp spec fn room(q: ArrayQueue<u8>) -> nat;

/// `ArrayQueue::new`: an empty queue of the given capacity. It panics for a
/// capacity of zero, and for one so large that the next power of two above
/// it does not fit the index type; the bound here leaves both out.
#[verifier::external_body]
fn queue_new(cap: usize) -> (q: ArrayQueue<u8>)
    requires
        0 < cap <= 0x1000_0000,
    ensures
        queued(q) == Seq::<u8>::empty(),
        room(q) == cap,
{
    ArrayQueue::new(cap)
}

/// `ArrayQueue::push_mut`: a queue that is not full takes the value at its
/// tail; a full queue hands it back and stays as it is. The call writes one
/// slot and moves the tail, and has no path that panics.
#[verifier::external_body]
fn queue_push(q: &mut ArrayQueue<u8>, v: u8) -> (r: bool)
    ensures
        room(*final(q)) == room(*old(q)),
        r == (queued(*old(q)).len() < room(*old(q))),
        r ==> queued(*final(q)) == queued(*old(q)).push(v),
        !r ==> queued(*final(q)) == queued(*old(q)),
    no_unwind
{
    q.push_mut(v).is_ok()
}

/// `ArrayQueue::pop_mut`: the value at the head of a queue that is not
/// empty leaves it; an empty queue gives `None`. The call reads one slot
/// and moves the head, and has no path that panics.
#[verifier::external_body]
fn queue_pop(q: &mut ArrayQueue<u8>) -> (r: Option<u8>)
    ensures
        room(*final(q)) == room(*old(q)),
        queued(*old(q)).len() == 0 ==> r is None && queued(*final(q)) == queued(*old(q)),
        queued(*old(q)).len() > 0 ==> r == Some(queued(*old(q))[0]) && queued(*final(q))
            == queued(*old(q)).drop_first(),
    no_unwind
{
    q.pop_mut()
}

/// How many scancodes the keyboard queue holds at most.
pub const SCANCODE_ROOM: usize = 100;

/// The scancodes that the keyboard has sent and nobody has read yet.
pub struct ScancodeStream {
    queue: ArrayQueue<u8>,
}

impl View for ScancodeStream {
    type V = Seq<u8>;

    closed spec fn view(&self) -> Seq<u8> {
        queued(self.queue)
    }
}

impl ScancodeStream {
    /// The queue of a stream has the room of the keyboard queue.
    #[verifier::type_invariant]
    closed spec fn wf(&self) -> bool {
        room(self.queue) == SCANCODE_ROOM
    }

    /// An empty stream.
    pub fn new() -> (r: ScancodeStream)
        ensures
            r@ == Seq::<u8>::empty(),
    {
        ScancodeStream { queue: queue_new(SCANCODE_ROOM) }
    }

    /// Takes a scancode from the keyboard. A full queue drops it: the result
    /// says whether the scancode was taken.
    pub fn add_scancode(&mut self, scancode: u8) -> (r: bool)
        ensures
            r == (old(self)@.len() < SCANCODE_ROOM),
            r ==> final(self)@ == old(self)@.push(scancode),
            !r ==> final(self)@ == old(self)@,
    {
        proof {
            use_type_invariant(&*self);
        }
        queue_push(&mut self.queue, scancode)
    }

    /// Hands out the oldest scancode that waits; `None` where none does.
    pub fn poll_next(&mut self) -> (r: Option<u8>)
        ensures
            old(self)@.len() == 0 ==> r is None && final(self)@ == old(self)@,
            old(self)@.len() > 0 ==> r == Some(old(self)@[0]) && final(self)@ == old(
                self,
            )@.drop_first(),
    {
        proof {
            use_type_invariant(&*self);
        }
        queue_pop(&mut self.queue)
    }
}

} // verus!
