//! The most recent mono samples kept for the visualizer.

use std::collections::VecDeque;

use vstd::prelude::*;

verus! {

/// How many samples are kept. At 44.1kHz this is ~90ms of audio — several
/// times larger than one FFT window.
pub const BUFFER_CAPACITY: usize = 8192;

/// The last `BUFFER_CAPACITY` samples pushed, oldest first.
pub struct SampleWindow<T> {
    samples: VecDeque<T>,
}

impl<T> View for SampleWindow<T> {
    type V = Seq<T>;

    closed spec fn view(&self) -> Seq<T> {
        self.samples@
    }
}

/// The last `BUFFER_CAPACITY` items of `s` (all of them when fewer).
pub open spec fn keep_newest<T>(s: Seq<T>) -> Seq<T> {
    if s.len() > BUFFER_CAPACITY {
        s.skip(s.len() - BUFFER_CAPACITY)
    } else {
        s
    }
}

/// The last `count` items of `s` (all of them when fewer), oldest first.
pub open spec fn newest<T>(s: Seq<T>, count: nat) -> Seq<T> {
    if count < s.len() {
        s.skip(s.len() - count)
    } else {
        s
    }
}

/// Law: right after a push of at least `count` samples (`count` within the
/// capacity), the latest `count` samples are the last `count` pushed, in
/// order, whatever the window held before.
pub proof fn lemma_latest_after_push<T>(before: Seq<T>, pushed: Seq<T>, count: nat)
    requires
        count <= pushed.len(),
        count <= BUFFER_CAPACITY,
    ensures
        newest(keep_newest(before + pushed), count) == pushed.skip(pushed.len() - count),
{
    let a = before + pushed;
    let k = keep_newest(a);
    let want = pushed.skip(pushed.len() - count);
    assert(k.len() >= count);
    assert(k.len() == a.len() || k.len() == BUFFER_CAPACITY);
    assert forall|i: int| 0 <= i < count implies #[trigger] newest(k, count)[i] == want[i] by {
        assert(newest(k, count)[i] == k[k.len() - count + i]);
        assert(k[k.len() - count + i] == a[a.len() - count + i]);
        assert(a[a.len() - count + i] == pushed[pushed.len() - count + i]);
    }
    assert(newest(k, count) =~= want);
}

impl<T> SampleWindow<T> {
    #[verifier::type_invariant]
    spec fn bounded(self) -> bool {
        self.samples@.len() <= BUFFER_CAPACITY
    }
}

impl<T: Copy> SampleWindow<T> {
    pub fn new() -> (w: Self)
        ensures
            w@ == Seq::<T>::empty(),
    {
        SampleWindow { samples: VecDeque::with_capacity(BUFFER_CAPACITY) }
    }

    /// Append `samples`, then drop the oldest until at most
    /// `BUFFER_CAPACITY` remain.
    pub fn push_many(&mut self, samples: &[T])
        ensures
            final(self)@ == keep_newest(old(self)@ + samples@),
            final(self)@.len() <= BUFFER_CAPACITY,
    {
        proof {
            use_type_invariant(&*self);
        }
        let mut buf: VecDeque<T> = VecDeque::new();
        std::mem::swap(&mut buf, &mut self.samples);
        let ghost start = buf@;
        let n = samples.len();
        for i in 0..n
            invariant
                n == samples@.len(),
                buf@ == start + samples@.take(i as int),
        {
            buf.push_back(samples[i]);
            assert(samples@.take(i + 1) == samples@.take(i as int).push(samples@[i as int]));
        }
        proof {
            assert(samples@.take(n as int) == samples@);
        }
        let ghost all = buf@;
        while buf.len() > BUFFER_CAPACITY
            invariant
                buf@.len() <= all.len(),
                all.len() > BUFFER_CAPACITY ==> buf@ == all.skip(all.len() - buf@.len()) && buf@.len() >= BUFFER_CAPACITY,
                all.len() <= BUFFER_CAPACITY ==> buf@ == all,
            decreases buf@.len(),
        {
            let ghost before = buf@;
            buf.pop_front();
            proof {
                assert(buf@ == before.drop_first());
                if all.len() > BUFFER_CAPACITY {
                    assert(all.skip(all.len() - before.len()).drop_first() =~= all.skip(
                        all.len() - buf@.len(),
                    ));
                }
            }
        }
        self.samples = buf;
    }

    /// The most recent `count` samples, oldest first. Fewer if not enough
    /// audio has flowed through yet.
    pub fn latest(&self, count: usize) -> (r: Vec<T>)
        ensures
            r@ == newest(self@, count as nat),
    {
        let len = self.samples.len();
        let skip = if count < len { len - count } else { 0 };
        let mut r: Vec<T> = Vec::new();
        for i in skip..len
            invariant
                len == self.samples@.len(),
                skip <= len,
                r@ == self.samples@.subrange(skip as int, i as int),
        {
            r.push(self.samples[i]);
            assert(self.samples@.subrange(skip as int, i + 1) == self.samples@.subrange(
                skip as int,
                i as int,
            ).push(self.samples@[i as int]));
        }
        r
    }

    /// Forget every sample.
    pub fn clear(&mut self)
        ensures
            final(self)@ == Seq::<T>::empty(),
    {
        let mut buf: VecDeque<T> = VecDeque::new();
        std::mem::swap(&mut buf, &mut self.samples);
    }
}

} // verus!
