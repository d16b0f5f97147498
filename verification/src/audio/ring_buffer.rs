//! A bounded buffer that keeps the most recent samples.
use vstd::prelude::*;
use std::collections::VecDeque;

verus! {

/// One sample pushed into a buffer of capacity `cap`: the oldest sample is
/// dropped first when the buffer is full.
pub open spec fn push_one<T>(b: Seq<T>, s: T, cap: nat) -> Seq<T> {
    if b.len() >= cap && b.len() > 0 {
        b.drop_first().push(s)
    } else {
        b.push(s)
    }
}

/// Samples pushed one by one.
pub open spec fn push_many<T>(b: Seq<T>, samples: Seq<T>, cap: nat) -> Seq<T>
    decreases samples.len(),
{
    if samples.len() == 0 {
        b
    } else {
        push_one(push_many(b, samples.drop_last(), cap), samples.last(), cap)
    }
}

/// The most samples a buffer of capacity `cap` holds (one even when `cap` is 0).
pub open spec fn bound(cap: nat) -> nat {
    if cap == 0 {
        1
    } else {
        cap
    }
}

/// Keeps the last samples pushed, at most `capacity` of them.
pub struct RingBuffer<T> {
    buffer: VecDeque<T>,
    capacity: usize,
}

impl<T> View for RingBuffer<T> {
    type V = Seq<T>;

    /// The held samples, oldest first.
    closed spec fn view(&self) -> Seq<T> {
        self.buffer@
    }
}

impl<T: Copy> RingBuffer<T> {
    /// The capacity.
    pub closed spec fn cap(&self) -> nat {
        self.capacity as nat
    }

    /// An empty buffer of the given capacity.
    pub fn new(capacity: usize) -> (r: Self)
        ensures
            r@ == Seq::<T>::empty(),
            r.cap() == capacity,
    {
        RingBuffer { buffer: VecDeque::new(), capacity }
    }

    /// Appends `samples`, dropping the oldest ones beyond the capacity.
    pub fn push(&mut self, samples: &[T])
        ensures
            final(self)@ == push_many(old(self)@, samples@, old(self).cap()),
            final(self).cap() == old(self).cap(),
    {
        let mut i: usize = 0;
        while i < samples.len()
            invariant
                i <= samples@.len(),
                self.cap() == old(self).cap(),
                self@ == push_many(old(self)@, samples@.take(i as int), self.cap()),
            decreases samples@.len() - i,
        {
            let s = samples[i];
            let ghost before = self@;
            if self.buffer.len() >= self.capacity {
                let _ = self.buffer.pop_front();
            }
            self.buffer.push_back(s);
            proof {
                assert(samples@.take(i + 1).drop_last() =~= samples@.take(i as int));
                assert(samples@.take(i + 1).last() == s);
                if before.len() >= self.cap() && before.len() > 0 {
                    assert(self@ =~= before.drop_first().push(s));
                } else {
                    assert(self@ =~= before.push(s));
                }
            }
            i = i + 1;
        }
        proof {
            assert(samples@.take(i as int) =~= samples@);
        }
    }

    /// Removes and returns all held samples, oldest first.
    pub fn drain(&mut self) -> (r: Vec<T>)
        ensures
            r@ == old(self)@,
            final(self)@ == Seq::<T>::empty(),
            final(self).cap() == old(self).cap(),
    {
        let mut out: Vec<T> = Vec::new();
        while self.buffer.len() > 0
            invariant
                out@ + self@ == old(self)@,
                self.cap() == old(self).cap(),
            decreases self@.len(),
        {
            let ghost before = self@;
            match self.buffer.pop_front() {
                Some(s) => {
                    out.push(s);
                    proof {
                        assert(out@ + self@ =~= old(self)@);
                    }
                },
                None => {},
            }
        }
        proof {
            assert(out@ =~= old(self)@);
        }
        out
    }

    /// Number of held samples.
    pub fn len(&self) -> (r: usize)
        ensures
            r == self@.len(),
    {
        self.buffer.len()
    }

    /// Whether no sample is held.
    pub fn is_empty(&self) -> (r: bool)
        ensures
            r == (self@.len() == 0),
    {
        self.buffer.len() == 0
    }

    /// Drops all held samples.
    pub fn reset(&mut self)
        ensures
            final(self)@ == Seq::<T>::empty(),
            final(self).cap() == old(self).cap(),
    {
        self.buffer.clear();
    }
}

/// A buffer holds the most recent samples: after pushing, its contents are the
/// last `min(n, bound(cap))` samples of what it held followed by what was
/// pushed, provided it held at most `bound(cap)` before.
pub proof fn lemma_push_keeps_latest<T>(b: Seq<T>, samples: Seq<T>, cap: nat)
    requires
        b.len() <= bound(cap),
    ensures
        push_many(b, samples, cap).len() == (if b.len() + samples.len() <= bound(cap) {
            (b.len() + samples.len()) as int
        } else {
            bound(cap) as int
        }),
        push_many(b, samples, cap) == (b + samples).skip(
            (b + samples).len() - push_many(b, samples, cap).len(),
        ),
    decreases samples.len(),
{
    if samples.len() > 0 {
        let d = samples.drop_last();
        lemma_push_keeps_latest(b, d, cap);
        let p = push_many(b, d, cap);
        let all = b + samples;
        let alld = b + d;
        assert(alld =~= all.drop_last());
        assert(all.last() == samples.last());
        if p.len() >= cap && p.len() > 0 {
            assert(p.drop_first().push(samples.last()) =~= all.skip(all.len() - p.len()));
        } else {
            assert(p.push(samples.last()) =~= all.skip(all.len() - (p.len() + 1)));
        }
    } else {
        assert((b + samples) =~= b);
        assert(b.skip(0) =~= b);
    }
}

} // verus!
