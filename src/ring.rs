use std::collections::VecDeque;
use vstd::prelude::*;

verus! {

/// A bounded first-in first-out buffer of samples between the producer (the
/// chunk feed) and the consumer (the output device).
///
/// Neither side ever waits. A pop from an empty buffer yields silence (0).
/// When a chunk does not fit, the samples beyond the capacity are dropped
/// (the newest are lost, what is already buffered is kept).
pub struct RingBuffer {
    samples: VecDeque<i32>,
    capacity: usize,
}

impl View for RingBuffer {
    type V = Seq<i32>;

    /// The buffered samples, oldest first.
    closed spec fn view(&self) -> Seq<i32> {
        self.samples@
    }
}

/// The first `n` samples popped from `buf`, silence once it runs out.
pub open spec fn popped(buf: Seq<i32>, n: int) -> Seq<i32> {
    Seq::new(n as nat, |i: int| if i < buf.len() { buf[i] } else { 0i32 })
}

/// What is left of `buf` after `n` pops.
pub open spec fn after_pops(buf: Seq<i32>, n: int) -> Seq<i32> {
    if n < buf.len() {
        buf.subrange(n, buf.len() as int)
    } else {
        Seq::empty()
    }
}

impl RingBuffer {
    #[verifier::type_invariant]
    spec fn inv(&self) -> bool {
        self.samples@.len() <= self.capacity
    }

    /// Most samples the buffer holds.
    pub closed spec fn spec_capacity(&self) -> nat {
        self.capacity as nat
    }

    /// An empty buffer that holds at most `capacity` samples.
    pub fn new(capacity: usize) -> (r: RingBuffer)
        ensures
            r@ == Seq::<i32>::empty(),
            r.spec_capacity() == capacity,
    {
        RingBuffer { samples: VecDeque::new(), capacity }
    }

    pub fn capacity(&self) -> (r: usize)
        ensures
            r == self.spec_capacity(),
    {
        self.capacity
    }

    /// Number of buffered samples.
    pub fn len(&self) -> (r: usize)
        ensures
            r == self@.len(),
            r <= self.spec_capacity(),
    {
        proof {
            use_type_invariant(self);
        }
        self.samples.len()
    }

    /// Appends as much of `chunk` as fits and returns how many samples that was.
    pub fn push_chunk(&mut self, chunk: &Vec<i32>) -> (accepted: usize)
        ensures
            final(self).spec_capacity() == old(self).spec_capacity(),
            accepted as int == if chunk@.len() < old(self).spec_capacity() - old(self)@.len() {
                chunk@.len() as int
            } else {
                old(self).spec_capacity() - old(self)@.len()
            },
            final(self)@ == old(self)@ + chunk@.subrange(0, accepted as int),
    {
        proof {
            use_type_invariant(&*self);
        }
        let mut samples: VecDeque<i32> = VecDeque::new();
        std::mem::swap(&mut samples, &mut self.samples);
        let room = self.capacity - samples.len();
        let accepted = if chunk.len() < room {
            chunk.len()
        } else {
            room
        };
        let ghost start = samples@;
        let mut i: usize = 0;
        while i < accepted
            invariant
                i <= accepted <= chunk@.len(),
                start.len() + accepted <= self.capacity,
                samples@ == start + chunk@.subrange(0, i as int),
            decreases accepted - i,
        {
            samples.push_back(chunk[i]);
            i += 1;
            assert(samples@ =~= start + chunk@.subrange(0, i as int));
        }
        self.samples = samples;
        accepted
    }

    /// Takes the oldest sample, or silence (0) when the buffer is empty.
    pub fn pop(&mut self) -> (r: i32)
        ensures
            final(self).spec_capacity() == old(self).spec_capacity(),
            r == popped(old(self)@, 1)[0],
            final(self)@ == after_pops(old(self)@, 1),
    {
        proof {
            use_type_invariant(&*self);
        }
        let mut samples: VecDeque<i32> = VecDeque::new();
        std::mem::swap(&mut samples, &mut self.samples);
        let r = match samples.pop_front() {
            Some(s) => s,
            None => 0,
        };
        self.samples = samples;
        r
    }

    /// Drops every buffered sample.
    pub fn clear(&mut self)
        ensures
            final(self).spec_capacity() == old(self).spec_capacity(),
            final(self)@ == Seq::<i32>::empty(),
    {
        let mut samples: VecDeque<i32> = VecDeque::new();
        std::mem::swap(&mut samples, &mut self.samples);
        samples.clear();
        self.samples = samples;
    }
}

} // verus!
