//! Fixed-capacity ring buffer of captured audio samples.
//!
//! The buffer keeps the most recent `RING_BUFFER_CAPACITY` samples written.
//! Readers either take the latest samples, or follow a stream position that
//! hands out each sample once, in order, jumping ahead when the writer has
//! overwritten samples the stream had not read yet.

use vstd::prelude::*;

verus! {

/// Capacity of the ring buffer in samples (two seconds at 48 kHz).
pub const RING_BUFFER_CAPACITY: usize = 96000;

/// The last `n` elements of `s` (all of `s` if it is shorter).
pub open spec fn keep_last<T>(s: Seq<T>, n: nat) -> Seq<T> {
    if s.len() <= n {
        s
    } else {
        s.skip(s.len() - n)
    }
}

/// The smaller of two naturals.
pub open spec fn min_nat(a: nat, b: nat) -> nat {
    if a <= b {
        a
    } else {
        b
    }
}

/// Number of samples a stream at position `pos` has not read yet, when
/// `total` samples have been written (at most the capacity).
pub open spec fn unread_count(total: nat, pos: nat) -> nat {
    if total <= pos {
        0
    } else {
        min_nat((total - pos) as nat, RING_BUFFER_CAPACITY as nat)
    }
}

/// Where a stream read starts: the stream position, or the oldest sample
/// still held when the stream position has been overwritten.
pub open spec fn stream_start(total: nat, pos: nat) -> nat {
    if pos + RING_BUFFER_CAPACITY < total {
        (total - RING_BUFFER_CAPACITY) as nat
    } else {
        pos
    }
}

/// The samples held, oldest first, given the `total` written: sample number
/// `p` (counting from the first write) sits at `recent[p - (total - recent.len())]`.
pub open spec fn samples_between<T>(recent: Seq<T>, total: nat, from: nat, to: nat) -> Seq<T> {
    let base = total - recent.len();
    recent.subrange(from - base, to - base)
}

/// A stream read of up to `num` samples from position `pos`: the samples
/// read and the new position. Nothing is read, and the position stays, when
/// no sample is unread or `num` is zero.
pub open spec fn stream_read<T>(recent: Seq<T>, total: nat, pos: nat, num: nat) -> (Seq<T>, nat) {
    let start = stream_start(total, pos);
    let n = min_nat(num, unread_count(total, pos));
    if n == 0 {
        (Seq::empty(), pos)
    } else {
        (samples_between(recent, total, start, start + n), start + n)
    }
}

/// Ring buffer state of the audio capture.
pub struct AudioCaptureInner<T> {
    ring_buffer: Vec<T>,
    write_pos: usize,
    total_written: u64,
    /// Stream read position, counted in samples written.
    stream_read_pos: u64,
}

impl<T: Copy + Default> AudioCaptureInner<T> {
    /// The internal consistency of the buffer.
    pub closed spec fn wf(&self) -> bool {
        &&& self.ring_buffer@.len() == RING_BUFFER_CAPACITY
        &&& self.write_pos as int == self.total_written as int % RING_BUFFER_CAPACITY as int
        &&& self.stream_read_pos <= self.total_written
    }

    /// Number of samples written since creation or the last `clear`.
    pub closed spec fn total(&self) -> nat {
        self.total_written as nat
    }

    /// The stream read position.
    pub closed spec fn stream_pos(&self) -> nat {
        self.stream_read_pos as nat
    }

    /// The samples held, oldest first: the last `min(total, capacity)` written.
    pub closed spec fn recent(&self) -> Seq<T> {
        let n = min_nat(self.total_written as nat, RING_BUFFER_CAPACITY as nat);
        Seq::new(
            n,
            |k: int|
                self.ring_buffer@[(self.total_written as int - n + k) % RING_BUFFER_CAPACITY as int],
        )
    }

    /// A consistent buffer holds the last `min(total, capacity)` samples
    /// written, and its stream position is never past the last one written.
    pub proof fn lemma_held(&self)
        requires
            self.wf(),
        ensures
            self.recent().len() == min_nat(self.total(), RING_BUFFER_CAPACITY as nat),
            self.stream_pos() <= self.total(),
    {
    }

    /// An empty buffer.
    pub fn new() -> (r: Self)
        ensures
            r.wf(),
            r.total() == 0,
            r.stream_pos() == 0,
            r.recent() == Seq::<T>::empty(),
    {
        let r = AudioCaptureInner {
            ring_buffer: vec![T::default(); RING_BUFFER_CAPACITY],
            write_pos: 0,
            total_written: 0,
            stream_read_pos: 0,
        };
        assert(r.recent() =~= Seq::<T>::empty());
        r
    }

    proof fn lemma_write_one(old_s: Self, new_s: Self, x: T)
        requires
            old_s.wf(),
            old_s.total_written < u64::MAX,
            new_s.ring_buffer@ == old_s.ring_buffer@.update(old_s.write_pos as int, x),
            new_s.total_written == old_s.total_written + 1,
            new_s.write_pos as int == (old_s.write_pos + 1) % RING_BUFFER_CAPACITY as int,
            new_s.stream_read_pos == old_s.stream_read_pos,
        ensures
            new_s.wf(),
            new_s.recent() == keep_last(old_s.recent().push(x), RING_BUFFER_CAPACITY as nat),
    {
        let c = RING_BUFFER_CAPACITY as int;
        let tw = old_s.total_written as int;
        let o = old_s.recent();
        let r = new_s.recent();
        let k = keep_last(o.push(x), RING_BUFFER_CAPACITY as nat);
        assert(r.len() == k.len());
        assert forall|i: int| 0 <= i < r.len() implies r[i] == k[i] by {
            let n = r.len() as int;
            let p = tw + 1 - n + i;
            assert(r[i] == new_s.ring_buffer@[p % c]);
            if i == n - 1 {
                assert(p == tw);
                assert(k[i] == x);
            } else {
                assert(tw - c < p < tw);
                assert(p % c != tw % c);
                let on = o.len() as int;
                assert(tw - on <= p);
                assert(k[i] == o[p - (tw - on)]);
                assert(o[p - (tw - on)] == old_s.ring_buffer@[(tw - on + (p - (tw - on))) % c]);
            }
        }
        assert(r =~= k);
    }

    /// Writes `samples` after the ones already written, overwriting the oldest.
    pub fn write_samples(&mut self, samples: &[T])
        requires
            old(self).wf(),
            old(self).total() + samples@.len() <= u64::MAX,
        ensures
            final(self).wf(),
            final(self).total() == old(self).total() + samples@.len(),
            final(self).stream_pos() == old(self).stream_pos(),
            final(self).recent() == keep_last(
                old(self).recent() + samples@,
                RING_BUFFER_CAPACITY as nat,
            ),
    {
        let ghost r0 = self.recent();
        let mut i: usize = 0;
        while i < samples.len()
            invariant
                self.wf(),
                i <= samples@.len(),
                self.total() == old(self).total() + i,
                old(self).total() + samples@.len() <= u64::MAX,
                self.stream_pos() == old(self).stream_pos(),
                r0 == old(self).recent(),
                self.recent() == keep_last(
                    r0 + samples@.take(i as int),
                    RING_BUFFER_CAPACITY as nat,
                ),
            decreases samples@.len() - i,
        {
            let sample = samples[i];
            let ghost before = *self;
            self.ring_buffer.set(self.write_pos, sample);
            self.write_pos = (self.write_pos + 1) % RING_BUFFER_CAPACITY;
            self.total_written = self.total_written + 1;
            proof {
                Self::lemma_write_one(before, *self, sample);
                let c = RING_BUFFER_CAPACITY as nat;
                let a = r0 + samples@.take(i as int);
                assert(r0 + samples@.take(i + 1) =~= a.push(sample));
                lemma_keep_last_push(a, sample, c);
            }
            i = i + 1;
        }
        assert(samples@.take(samples@.len() as int) =~= samples@);
    }

    /// Copies the `count` samples starting at sample number `from`.
    fn copy_out(&self, from: u64, count: usize) -> (r: Vec<T>)
        requires
            self.wf(),
            self.total() - self.recent().len() <= from,
            from + count <= self.total(),
        ensures
            r@ == samples_between(self.recent(), self.total(), from as nat, (from + count) as nat),
    {
        let ghost n = self.recent().len();
        let ghost base = self.total() - n;
        let start = (from % (RING_BUFFER_CAPACITY as u64)) as usize;
        let mut result: Vec<T> = Vec::new();
        let mut i: usize = 0;
        while i < count
            invariant
                self.wf(),
                n == self.recent().len(),
                base == self.total() - n,
                base <= from,
                from + count <= self.total(),
                start as int == from as int % RING_BUFFER_CAPACITY as int,
                i <= count,
                result@ == self.recent().subrange(from - base, from - base + i),
            decreases count - i,
        {
            let idx = (start + i) % RING_BUFFER_CAPACITY;
            proof {
                let c = RING_BUFFER_CAPACITY as int;
                assert(idx as int == (from + i) % c);
                assert(self.recent()[from - base + i] == self.ring_buffer@[(
                self.total_written as int - n + (from - base + i)) % c]);
            }
            result.push(self.ring_buffer[idx]);
            assert(result@ =~= self.recent().subrange(from - base, from - base + i + 1));
            i = i + 1;
        }
        result
    }

    /// The latest `num_samples` samples (fewer if fewer are held), oldest first.
    pub fn read_latest(&self, num_samples: usize) -> (r: Vec<T>)
        requires
            self.wf(),
        ensures
            r@ == keep_last(self.recent(), num_samples as nat),
    {
        let num_samples = if num_samples < RING_BUFFER_CAPACITY {
            num_samples
        } else {
            RING_BUFFER_CAPACITY
        };
        let available = if self.total_written < RING_BUFFER_CAPACITY as u64 {
            self.total_written as usize
        } else {
            RING_BUFFER_CAPACITY
        };
        let actual_samples = if num_samples < available {
            num_samples
        } else {
            available
        };
        if actual_samples == 0 {
            assert(keep_last(self.recent(), num_samples as nat) =~= Seq::<T>::empty()) by {
                assert(self.recent().len() == available);
            }
            return Vec::new();
        }
        let from = self.total_written - actual_samples as u64;
        let r = self.copy_out(from, actual_samples);
        assert(r@ =~= keep_last(self.recent(), num_samples as nat));
        r
    }

    /// Number of samples the stream has not read yet (at most the capacity).
    pub fn unread_samples(&self) -> (r: usize)
        requires
            self.wf(),
        ensures
            r == unread_count(self.total(), self.stream_pos()),
    {
        if self.total_written <= self.stream_read_pos {
            return 0;
        }
        let unread = self.total_written - self.stream_read_pos;
        if unread < RING_BUFFER_CAPACITY as u64 {
            unread as usize
        } else {
            RING_BUFFER_CAPACITY
        }
    }

    /// The next `num_samples` unread samples (fewer if fewer are unread), in
    /// order; the stream position moves past them. When the stream position
    /// has been overwritten, reading starts at the oldest sample held.
    pub fn read_stream(&mut self, num_samples: usize) -> (r: Vec<T>)
        requires
            old(self).wf(),
        ensures
            final(self).wf(),
            final(self).total() == old(self).total(),
            final(self).recent() == old(self).recent(),
            (r@, final(self).stream_pos()) == stream_read(
                old(self).recent(),
                old(self).total(),
                old(self).stream_pos(),
                num_samples as nat,
            ),
    {
        let available = self.unread_samples();
        let to_read = if num_samples < available {
            num_samples
        } else {
            available
        };
        if to_read == 0 {
            return Vec::new();
        }
        if self.total_written > RING_BUFFER_CAPACITY as u64 {
            let oldest_valid = self.total_written - RING_BUFFER_CAPACITY as u64;
            if self.stream_read_pos < oldest_valid {
                self.stream_read_pos = oldest_valid;
            }
        }
        let result = self.copy_out(self.stream_read_pos, to_read);
        self.stream_read_pos = self.stream_read_pos + to_read as u64;
        result
    }

    /// Moves the stream position to the end: nothing is unread afterwards.
    pub fn reset_stream_position(&mut self)
        requires
            old(self).wf(),
        ensures
            final(self).wf(),
            final(self).total() == old(self).total(),
            final(self).recent() == old(self).recent(),
            final(self).stream_pos() == old(self).total(),
    {
        self.stream_read_pos = self.total_written;
    }

    /// Empties the buffer and resets both positions.
    pub fn clear(&mut self)
        requires
            old(self).wf(),
        ensures
            final(self).wf(),
            final(self).total() == 0,
            final(self).stream_pos() == 0,
            final(self).recent() == Seq::<T>::empty(),
    {
        let zero = T::default();
        let mut i: usize = 0;
        while i < self.ring_buffer.len()
            invariant
                self.ring_buffer@.len() == RING_BUFFER_CAPACITY,
            decreases RING_BUFFER_CAPACITY - i,
        {
            self.ring_buffer.set(i, zero);
            i = i + 1;
        }
        self.write_pos = 0;
        self.total_written = 0;
        self.stream_read_pos = 0;
        assert(self.recent() =~= Seq::<T>::empty());
    }
}

/// Keeping the last `n` after a push is keeping the last `n` of the last `n` pushed to.
pub proof fn lemma_keep_last_push<T>(a: Seq<T>, x: T, n: nat)
    requires
        n > 0,
    ensures
        keep_last(keep_last(a, n).push(x), n) == keep_last(a.push(x), n),
{
    assert(keep_last(keep_last(a, n).push(x), n) =~= keep_last(a.push(x), n));
}

/// Writing a block of at most the capacity and then reading that many latest
/// samples gives back the block.
pub proof fn law_latest_after_write<T>(recent: Seq<T>, block: Seq<T>)
    requires
        block.len() <= RING_BUFFER_CAPACITY,
    ensures
        keep_last(keep_last(recent + block, RING_BUFFER_CAPACITY as nat), block.len()) == block,
{
    let c = RING_BUFFER_CAPACITY as nat;
    let a = recent + block;
    let k = keep_last(a, c);
    assert(keep_last(k, block.len()) =~= block);
}

/// Two stream reads in a row, with no write between them, return the same
/// samples as one read of both counts, and leave the stream at the same place
/// (counted in samples written) whenever the single read moves it.
pub proof fn law_stream_reads_concatenate<T>(recent: Seq<T>, total: nat, pos: nat, a: nat, b: nat)
    requires
        recent.len() == min_nat(total, RING_BUFFER_CAPACITY as nat),
        pos <= total,
    ensures
        ({
            let first = stream_read(recent, total, pos, a);
            let second = stream_read(recent, total, first.1, b);
            let both = stream_read(recent, total, pos, a + b);
            &&& first.0 + second.0 == both.0
            &&& both.0.len() > 0 ==> second.1 == both.1
        }),
{
    let first = stream_read(recent, total, pos, a);
    let second = stream_read(recent, total, first.1, b);
    let both = stream_read(recent, total, pos, a + b);
    let start = stream_start(total, pos);
    let base = total - recent.len();
    assert(first.0 + second.0 =~= both.0);
}

/// After the stream position is reset to the end, nothing is unread and a
/// stream read returns nothing until new samples are written.
pub proof fn law_reset_leaves_nothing_unread<T>(recent: Seq<T>, total: nat, num: nat)
    ensures
        unread_count(total, total) == 0,
        stream_read(recent, total, total, num).0 == Seq::<T>::empty(),
{
}

} // verus!
