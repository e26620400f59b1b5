//! A bounded buffer that keeps the most recent samples of a capture.

use vstd::prelude::*;
use std::collections::VecDeque;

verus! {

/// One push: when the buffer is at its limit (and not empty) the oldest
/// item leaves, then `x` is appended.
pub open spec fn push_one<T>(s: Seq<T>, x: T, max: nat) -> Seq<T> {
    (if s.len() >= max && s.len() > 0 {
        s.drop_first()
    } else {
        s
    }).push(x)
}

/// Pushing `xs` one after another.
pub open spec fn push_each<T>(s: Seq<T>, xs: Seq<T>, max: nat) -> Seq<T>
    decreases xs.len(),
{
    if xs.len() == 0 {
        s
    } else {
        push_one(push_each(s, xs.drop_last(), max), xs.last(), max)
    }
}

/// The last `n` items of `s` (all of them when there are fewer).
pub open spec fn last_n<T>(s: Seq<T>, n: nat) -> Seq<T> {
    if s.len() <= n {
        s
    } else {
        s.skip(s.len() - n)
    }
}

/// Keeps at most `max_size` of the most recent samples (at least the last
/// one when `max_size` is 0).
pub struct RingBuffer<T> {
    buffer: VecDeque<T>,
    max_size: usize,
}

impl<T> RingBuffer<T> {
    /// The samples held, oldest first.
    pub closed spec fn contents(&self) -> Seq<T> {
        self.buffer@
    }

    /// The limit the buffer was made with.
    pub closed spec fn limit(&self) -> nat {
        self.max_size as nat
    }

    /// The buffer holds no more than its limit, or a single item.
    pub open spec fn wf(&self) -> bool {
        self.contents().len() <= self.limit() || self.contents().len() <= 1
    }

    /// An empty buffer that keeps at most `max_size` samples.
    pub fn new(max_size: usize) -> (r: RingBuffer<T>)
        ensures
            r.contents() == Seq::<T>::empty(),
            r.limit() == max_size,
            r.wf(),
    {
        RingBuffer { buffer: VecDeque::with_capacity(max_size), max_size }
    }

    /// Number of samples held.
    pub fn len(&self) -> (r: usize)
        ensures
            r == self.contents().len(),
    {
        self.buffer.len()
    }

    /// Drops every sample.
    pub fn clear(&mut self)
        ensures
            final(self).contents() == Seq::<T>::empty(),
            final(self).limit() == old(self).limit(),
            final(self).wf(),
    {
        self.buffer.clear();
    }
}

impl<T: Copy> RingBuffer<T> {
    /// Appends `samples` in order, dropping the oldest ones beyond the limit.
    pub fn push_samples(&mut self, samples: &[T])
        requires
            old(self).wf(),
        ensures
            final(self).contents() == push_each(old(self).contents(), samples@, old(self).limit()),
            final(self).limit() == old(self).limit(),
            final(self).wf(),
    {
        let ghost start = self.buffer@;
        let mut i: usize = 0;
        assert(samples@.take(0) =~= Seq::<T>::empty());
        while i < samples.len()
            invariant
                i <= samples.len(),
                self.max_size == old(self).max_size,
                start == old(self).buffer@,
                self.buffer@ == push_each(start, samples@.take(i as int), self.max_size as nat),
                self.buffer@.len() <= self.max_size || self.buffer@.len() <= 1,
            decreases samples.len() - i,
        {
            let sample = samples[i];
            let ghost before = self.buffer@;
            if self.buffer.len() >= self.max_size {
                self.buffer.pop_front();
            }
            self.buffer.push_back(sample);
            assert(self.buffer@ =~= push_one(before, sample, self.max_size as nat));
            assert(samples@.take(i + 1).drop_last() =~= samples@.take(i as int));
            assert(samples@.take(i + 1).last() == sample);
            i = i + 1;
        }
        assert(samples@.take(samples.len() as int) =~= samples@);
    }

    /// The most recent `count` samples, oldest first (all of them when
    /// fewer are held).
    pub fn get_last_samples(&self, count: usize) -> (r: Vec<T>)
        ensures
            r@ == last_n(self.contents(), count as nat),
    {
        let len = self.buffer.len();
        let available = if len < count {
            len
        } else {
            count
        };
        let first = len - available;
        let mut out: Vec<T> = Vec::new();
        let mut i = first;
        while i < len
            invariant
                first <= i <= len,
                len == self.buffer@.len(),
                out@ == self.buffer@.subrange(first as int, i as int),
            decreases len - i,
        {
            let x = self.buffer[i];
            out.push(x);
            assert(out@ =~= self.buffer@.subrange(first as int, i + 1));
            i = i + 1;
        }
        assert(out@ =~= last_n(self.buffer@, count as nat));
        out
    }
}

/// A buffer that started within its limit holds the last `max` of all the
/// items it was given: pushing `xs` after `s` keeps the last `max` items of
/// `s + xs`.
pub proof fn lemma_keeps_most_recent<T>(s: Seq<T>, xs: Seq<T>, max: nat)
    requires
        max >= 1,
        s.len() <= max,
    ensures
        push_each(s, xs, max) == last_n(s + xs, max),
    decreases xs.len(),
{
    if xs.len() == 0 {
        assert(s + xs =~= s);
    } else {
        lemma_keeps_most_recent(s, xs.drop_last(), max);
        let prev = s + xs.drop_last();
        assert(s + xs =~= prev.push(xs.last()));
        let kept = last_n(prev, max);
        if prev.len() <= max {
            if prev.len() == max {
                assert(push_one(kept, xs.last(), max) =~= last_n(prev.push(xs.last()), max));
            } else {
                assert(push_one(kept, xs.last(), max) =~= last_n(prev.push(xs.last()), max));
            }
        } else {
            assert(kept.len() == max);
            assert(push_one(kept, xs.last(), max) =~= last_n(prev.push(xs.last()), max));
        }
    }
}

/// The interleaved samples of one take, gathered in arrival order.
pub struct CaptureBuffer<T> {
    buffer: Vec<T>,
    channels: usize,
    sample_rate: u32,
}

impl<T: Copy> CaptureBuffer<T> {
    /// The samples gathered so far.
    pub closed spec fn samples(&self) -> Seq<T> {
        self.buffer@
    }

    pub closed spec fn channel_count(&self) -> usize {
        self.channels
    }

    pub closed spec fn rate(&self) -> u32 {
        self.sample_rate
    }

    /// An empty buffer with room for `duration_ms` of audio.
    pub fn new(channels: usize, sample_rate: u32, duration_ms: u64) -> (r: CaptureBuffer<T>)
        requires
            sample_rate * duration_ms <= u64::MAX,
            ((sample_rate * duration_ms / 1000) as u64 as usize) * channels <= usize::MAX,
        ensures
            r.samples() == Seq::<T>::empty(),
            r.channel_count() == channels,
            r.rate() == sample_rate,
    {
        let product: u64 = sample_rate as u64 * duration_ms;
        let frames = #[verifier::truncate] ((product / 1000) as usize);
        let room = frames * channels;
        CaptureBuffer { buffer: Vec::with_capacity(room), channels, sample_rate }
    }

    /// Appends `data` after what was gathered.
    pub fn append(&mut self, data: &[T])
        ensures
            final(self).samples() == old(self).samples() + data@,
            final(self).channel_count() == old(self).channel_count(),
            final(self).rate() == old(self).rate(),
    {
        let ghost start = self.buffer@;
        let mut i: usize = 0;
        while i < data.len()
            invariant
                i <= data.len(),
                self.buffer@ == start + data@.take(i as int),
                self.channels == old(self).channels,
                self.sample_rate == old(self).sample_rate,
            decreases data.len() - i,
        {
            self.buffer.push(data[i]);
            assert(data@.take(i + 1) =~= data@.take(i as int).push(data@[i as int]));
            i = i + 1;
        }
        assert(data@.take(data.len() as int) =~= data@);
    }

    /// The samples gathered so far.
    pub fn data(&self) -> (r: &[T])
        ensures
            r@ == self.samples(),
    {
        self.buffer.as_slice()
    }

    /// The samples gathered, giving up the buffer.
    pub fn into_data(self) -> (r: Vec<T>)
        ensures
            r@ == self.samples(),
    {
        self.buffer
    }

    pub fn channels(&self) -> (r: usize)
        ensures
            r == self.channel_count(),
    {
        self.channels
    }

    pub fn sample_rate(&self) -> (r: u32)
        ensures
            r == self.rate(),
    {
        self.sample_rate
    }

    /// Whole frames gathered.
    pub fn frame_count(&self) -> (r: usize)
        requires
            self.channel_count() > 0,
        ensures
            r == self.samples().len() / (self.channel_count() as nat),
    {
        self.buffer.len() / self.channels
    }
}

} // verus!
