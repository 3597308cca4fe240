use vstd::arithmetic::div_mod::{lemma_div_plus_one, lemma_basic_div};
use vstd::prelude::*;

verus! {

/// Length of one streamed chunk, in milliseconds.
pub const CHUNK_DURATION_MS: u32 = 500;

/// Samples in one chunk: `sample_rate * chunk_duration_ms / 1000`.
pub open spec fn chunk_size_for(sample_rate: int, chunk_duration_ms: int) -> int {
    sample_rate * chunk_duration_ms / 1000
}

/// A slice of the stream: its first sample's position (its timestamp, in
/// samples), a copy of its samples, and whether it ends the stream.
#[derive(Clone, Debug)]
pub struct Chunk {
    pub timestamp: u64,
    pub samples: Vec<i32>,
    pub end_of_stream: bool,
}

/// End (exclusive) of the chunk that starts at `pos`.
pub open spec fn chunk_end(len: int, chunk_size: int, pos: int) -> int {
    if pos + chunk_size < len {
        pos + chunk_size
    } else {
        len
    }
}

/// The chunk that starts at `pos`, as (timestamp, samples, end of stream).
pub open spec fn chunk_model(s: Seq<i32>, chunk_size: int, pos: int) -> (int, Seq<i32>, bool) {
    let end = chunk_end(s.len() as int, chunk_size, pos);
    (pos, s.subrange(pos, end), end == s.len())
}

/// Every chunk emitted from `pos` to the end of the stream.
pub open spec fn chunks_from(s: Seq<i32>, chunk_size: int, pos: int) -> Seq<(int, Seq<i32>, bool)>
    decreases s.len() - pos,
{
    if chunk_size <= 0 || pos < 0 || pos >= s.len() {
        Seq::empty()
    } else if pos + chunk_size >= s.len() {
        seq![chunk_model(s, chunk_size, pos)]
    } else {
        seq![chunk_model(s, chunk_size, pos)] + chunks_from(s, chunk_size, pos + chunk_size)
    }
}

/// The samples of a run of chunks, one after the other.
pub open spec fn joined_samples(chunks: Seq<(int, Seq<i32>, bool)>) -> Seq<i32>
    decreases chunks.len(),
{
    if chunks.len() == 0 {
        Seq::empty()
    } else {
        chunks[0].1 + joined_samples(chunks.drop_first())
    }
}

/// Turns a decoded sample buffer into a feed of chunks, one per tick of the
/// caller's clock, with pause and seeking.
pub struct AudioStreamer {
    samples: Vec<i32>,
    sample_rate: u32,
    chunk_size: usize,
    position: usize,
    paused: bool,
}

impl AudioStreamer {
    #[verifier::type_invariant]
    spec fn inv(&self) -> bool {
        &&& self.position <= self.samples@.len()
        &&& self.chunk_size > 0
    }

    pub closed spec fn spec_samples(&self) -> Seq<i32> {
        self.samples@
    }

    pub closed spec fn spec_sample_rate(&self) -> u32 {
        self.sample_rate
    }

    pub closed spec fn spec_chunk_size(&self) -> int {
        self.chunk_size as int
    }

    /// The read position: the index of the next sample to stream.
    pub closed spec fn spec_position(&self) -> int {
        self.position as int
    }

    pub closed spec fn spec_paused(&self) -> bool {
        self.paused
    }

    /// A streamer at the start of `samples`, cutting chunks of
    /// `chunk_duration_ms` milliseconds.
    pub fn new(samples: Vec<i32>, sample_rate: u32, chunk_duration_ms: u32) -> (r: AudioStreamer)
        requires
            chunk_size_for(sample_rate as int, chunk_duration_ms as int) > 0,
            chunk_size_for(sample_rate as int, chunk_duration_ms as int) <= usize::MAX,
        ensures
            r.spec_samples() == samples@,
            r.spec_sample_rate() == sample_rate,
            r.spec_chunk_size() == chunk_size_for(sample_rate as int, chunk_duration_ms as int),
            r.spec_position() == 0,
            !r.spec_paused(),
    {
        let rate = sample_rate as u64;
        let ms = chunk_duration_ms as u64;
        assert(rate * ms <= 0xffff_ffff * 0xffff_ffff) by (nonlinear_arith)
            requires
                rate <= 0xffff_ffff,
                ms <= 0xffff_ffff,
        ;
        let size = rate * ms / 1000;
        AudioStreamer { samples, sample_rate, chunk_size: size as usize, position: 0, paused: false }
    }

    /// Chunk size, in samples.
    pub fn chunk_size(&self) -> (r: usize)
        ensures
            r == self.spec_chunk_size(),
            r > 0,
    {
        proof {
            use_type_invariant(self);
        }
        self.chunk_size
    }

    pub fn sample_rate(&self) -> (r: u32)
        ensures
            r == self.spec_sample_rate(),
    {
        self.sample_rate
    }

    /// The read position, in samples.
    pub fn position(&self) -> (r: usize)
        ensures
            r == self.spec_position(),
            r <= self.spec_samples().len(),
    {
        proof {
            use_type_invariant(self);
        }
        self.position
    }

    /// Whether the read position has reached the end of the buffer.
    pub fn is_finished(&self) -> (r: bool)
        ensures
            r == (self.spec_position() >= self.spec_samples().len()),
    {
        self.position >= self.samples.len()
    }

    pub fn is_paused(&self) -> (r: bool)
        ensures
            r == self.spec_paused(),
    {
        self.paused
    }

    pub fn pause(&mut self)
        ensures
            final(self).spec_paused(),
            final(self).spec_samples() == old(self).spec_samples(),
            final(self).spec_sample_rate() == old(self).spec_sample_rate(),
            final(self).spec_chunk_size() == old(self).spec_chunk_size(),
            final(self).spec_position() == old(self).spec_position(),
    {
        proof {
            use_type_invariant(&*self);
        }
        self.paused = true;
    }

    pub fn resume(&mut self)
        ensures
            !final(self).spec_paused(),
            final(self).spec_samples() == old(self).spec_samples(),
            final(self).spec_sample_rate() == old(self).spec_sample_rate(),
            final(self).spec_chunk_size() == old(self).spec_chunk_size(),
            final(self).spec_position() == old(self).spec_position(),
    {
        proof {
            use_type_invariant(&*self);
        }
        self.paused = false;
    }

    pub fn toggle(&mut self)
        ensures
            final(self).spec_paused() == !old(self).spec_paused(),
            final(self).spec_samples() == old(self).spec_samples(),
            final(self).spec_sample_rate() == old(self).spec_sample_rate(),
            final(self).spec_chunk_size() == old(self).spec_chunk_size(),
            final(self).spec_position() == old(self).spec_position(),
    {
        proof {
            use_type_invariant(&*self);
        }
        self.paused = !self.paused;
    }

    /// The chunk at the read position, after which the read position moves to
    /// its end. Nothing comes while paused or once the buffer is used up.
    ///
    /// A chunk holds `chunk_size` samples, or what is left when fewer are;
    /// its timestamp is its first sample's position, and it ends the stream
    /// exactly when it reaches the end of the buffer.
    pub fn next_chunk(&mut self) -> (r: Option<Chunk>)
        ensures
            final(self).spec_samples() == old(self).spec_samples(),
            final(self).spec_sample_rate() == old(self).spec_sample_rate(),
            final(self).spec_chunk_size() == old(self).spec_chunk_size(),
            final(self).spec_paused() == old(self).spec_paused(),
            (old(self).spec_paused() || old(self).spec_position() >= old(self).spec_samples().len())
                ==> r is None && final(self).spec_position() == old(self).spec_position(),
            !(old(self).spec_paused() || old(self).spec_position() >= old(self).spec_samples().len())
                ==> {
                let s = old(self).spec_samples();
                let c = old(self).spec_chunk_size();
                let pos = old(self).spec_position();
                &&& r is Some
                &&& (r->0.timestamp as int, r->0.samples@, r->0.end_of_stream) == chunk_model(s, c, pos)
                &&& final(self).spec_position() == chunk_end(s.len() as int, c, pos)
                &&& chunks_from(s, c, pos) == seq![chunk_model(s, c, pos)] + chunks_from(
                    s,
                    c,
                    final(self).spec_position(),
                )
            },
    {
        proof {
            use_type_invariant(&*self);
        }
        if self.paused || self.position >= self.samples.len() {
            return None;
        }
        let pos = self.position;
        let len = self.samples.len();
        let end = if self.chunk_size < len - pos {
            pos + self.chunk_size
        } else {
            len
        };
        let mut out: Vec<i32> = Vec::new();
        let mut i: usize = pos;
        while i < end
            invariant
                pos <= i <= end <= self.samples@.len(),
                out@ == self.samples@.subrange(pos as int, i as int),
            decreases end - i,
        {
            out.push(self.samples[i]);
            i += 1;
            assert(out@ =~= self.samples@.subrange(pos as int, i as int));
        }
        self.position = end;
        Some(Chunk { timestamp: pos as u64, samples: out, end_of_stream: end == len })
    }

    /// Moves the read position `seconds` forward, stopping at the end of the
    /// buffer, and returns the new position.
    pub fn seek_forward(&mut self, seconds: u32) -> (r: u64)
        ensures
            final(self).spec_samples() == old(self).spec_samples(),
            final(self).spec_sample_rate() == old(self).spec_sample_rate(),
            final(self).spec_chunk_size() == old(self).spec_chunk_size(),
            final(self).spec_paused() == old(self).spec_paused(),
            final(self).spec_position() == if old(self).spec_position() + seconds
                * old(self).spec_sample_rate() < old(self).spec_samples().len() {
                old(self).spec_position() + seconds * old(self).spec_sample_rate()
            } else {
                old(self).spec_samples().len() as int
            },
            r == final(self).spec_position(),
    {
        proof {
            use_type_invariant(&*self);
        }
        let s = seconds as u64;
        let rate = self.sample_rate as u64;
        assert(s * rate <= 0xffff_ffff * 0xffff_ffff) by (nonlinear_arith)
            requires
                s <= 0xffff_ffff,
                rate <= 0xffff_ffff,
        ;
        let delta = s * rate;
        let len = self.samples.len();
        let room = (len - self.position) as u64;
        if delta < room {
            self.position = self.position + delta as usize;
        } else {
            self.position = len;
        }
        self.position as u64
    }

    /// Moves the read position `seconds` back, stopping at the start of the
    /// buffer, and returns the new position.
    pub fn seek_backward(&mut self, seconds: u32) -> (r: u64)
        ensures
            final(self).spec_samples() == old(self).spec_samples(),
            final(self).spec_sample_rate() == old(self).spec_sample_rate(),
            final(self).spec_chunk_size() == old(self).spec_chunk_size(),
            final(self).spec_paused() == old(self).spec_paused(),
            final(self).spec_position() == if old(self).spec_position() > seconds
                * old(self).spec_sample_rate() {
                old(self).spec_position() - seconds * old(self).spec_sample_rate()
            } else {
                0
            },
            r == final(self).spec_position(),
    {
        proof {
            use_type_invariant(&*self);
        }
        let s = seconds as u64;
        let rate = self.sample_rate as u64;
        assert(s * rate <= 0xffff_ffff * 0xffff_ffff) by (nonlinear_arith)
            requires
                s <= 0xffff_ffff,
                rate <= 0xffff_ffff,
        ;
        let delta = s * rate;
        if delta < self.position as u64 {
            self.position = self.position - delta as usize;
        } else {
            self.position = 0;
        }
        self.position as u64
    }
}

/// How long to sleep before the next tick, in nanoseconds, so that tick `k`
/// (counting from zero) falls at `start + k * period` however long the work
/// of earlier ticks took: zero when that moment has already passed.
pub open spec fn tick_delay(start: int, ticks_done: int, period: int, now: int) -> int {
    let due = start + (ticks_done + 1) * period;
    if due <= now {
        0
    } else if due - now > u64::MAX {
        u64::MAX as int
    } else {
        due - now
    }
}

/// The sleep before the next tick, as `tick_delay` states it.
pub fn next_tick_delay(start: u64, ticks_done: u64, period: u64, now: u64) -> (r: u64)
    ensures
        r == tick_delay(start as int, ticks_done as int, period as int, now as int),
{
    let t = ticks_done as u128 + 1;
    assert(t * period <= 0x1_0000_0000_0000_0000 * 0xffff_ffff_ffff_ffff) by (nonlinear_arith)
        requires
            t <= 0x1_0000_0000_0000_0000,
            period <= 0xffff_ffff_ffff_ffff,
    ;
    let due = start as u128 + t * (period as u128);
    if due <= now as u128 {
        0
    } else if due - (now as u128) > u64::MAX as u128 {
        u64::MAX
    } else {
        (due - now as u128) as u64
    }
}

/// The chunks from `pos` on: `ceil((len - pos) / chunk_size)` of them, the
/// i-th starting at `pos + i * chunk_size`, together exactly the samples from
/// `pos` to the end, and only the last one marked as ending the stream.
pub proof fn lemma_chunks_cover(s: Seq<i32>, chunk_size: int, pos: int)
    requires
        chunk_size > 0,
        0 <= pos <= s.len(),
    ensures
        chunks_from(s, chunk_size, pos).len() == (s.len() - pos + chunk_size - 1) / chunk_size,
        joined_samples(chunks_from(s, chunk_size, pos)) == s.subrange(pos, s.len() as int),
        forall|i: int|
            0 <= i < chunks_from(s, chunk_size, pos).len() ==> (#[trigger] chunks_from(
                s,
                chunk_size,
                pos,
            )[i]).0 == pos + i * chunk_size,
        forall|i: int|
            0 <= i < chunks_from(s, chunk_size, pos).len() ==> (#[trigger] chunks_from(
                s,
                chunk_size,
                pos,
            )[i]).2 == (i == chunks_from(s, chunk_size, pos).len() - 1),
    decreases s.len() - pos,
{
    let len = s.len() as int;
    let ch = chunks_from(s, chunk_size, pos);
    if pos == len {
        lemma_basic_div(chunk_size - 1, chunk_size);
        assert(s.subrange(pos, len) =~= Seq::<i32>::empty());
    } else if pos + chunk_size >= len {
        lemma_basic_div(len - pos - 1, chunk_size);
        lemma_div_plus_one(len - pos - 1, chunk_size);
        assert(ch.drop_first() =~= Seq::<(int, Seq<i32>, bool)>::empty());
        assert(joined_samples(ch.drop_first()) == Seq::<i32>::empty());
        assert(joined_samples(ch) =~= s.subrange(pos, len));
    } else {
        let rest = chunks_from(s, chunk_size, pos + chunk_size);
        lemma_chunks_cover(s, chunk_size, pos + chunk_size);
        lemma_div_plus_one(len - pos - 1, chunk_size);
        assert(ch.drop_first() =~= rest);
        assert(joined_samples(ch) =~= s.subrange(pos, len));
        assert forall|i: int| 0 <= i < ch.len() implies (#[trigger] ch[i]).0 == pos + i * chunk_size by {
            if i > 0 {
                assert(ch[i] == rest[i - 1]);
                assert(pos + chunk_size + (i - 1) * chunk_size == pos + i * chunk_size) by (nonlinear_arith);
            }
        }
        assert forall|i: int| 0 <= i < ch.len() implies (#[trigger] ch[i]).2 == (i == ch.len() - 1) by {
            if i > 0 {
                assert(ch[i] == rest[i - 1]);
            }
        }
    }
}

/// Streaming a whole buffer of `len` samples in chunks of `chunk_size` gives
/// `ceil(len / chunk_size)` chunks that together are exactly the buffer, with
/// only the last one marked as ending the stream.
pub proof fn lemma_stream_reconstructs(s: Seq<i32>, chunk_size: int)
    requires
        chunk_size > 0,
    ensures
        chunks_from(s, chunk_size, 0).len() == (s.len() + chunk_size - 1) / chunk_size,
        joined_samples(chunks_from(s, chunk_size, 0)) == s,
        forall|i: int|
            0 <= i < chunks_from(s, chunk_size, 0).len() ==> (#[trigger] chunks_from(s, chunk_size, 0)[i]).2
                == (i == chunks_from(s, chunk_size, 0).len() - 1),
{
    lemma_chunks_cover(s, chunk_size, 0);
    assert(s.subrange(0, s.len() as int) =~= s);
}

} // verus!
