//! The ring buffer through which the audio thread hands its latest samples to the visualizer.

use vstd::prelude::*;

verus! {

/// `a % n` for `0 <= a < 2n`.
proof fn lemma_mod_once(a: int, n: int)
    requires
        n > 0,
        0 <= a < 2 * n,
    ensures
        a % n == if a < n { a } else { a - n },
{
    if a < n {
        vstd::arithmetic::div_mod::lemma_small_mod(a as nat, n as nat);
    } else {
        vstd::arithmetic::div_mod::lemma_small_mod((a - n) as nat, n as nat);
        vstd::arithmetic::div_mod::lemma_mod_add_multiples_vanish(a - n, n);
    }
}

/// A fixed number of the latest samples. Writing overwrites the oldest sample.
pub struct SampleRing<T> {
    pub buffer: Vec<T>,
    pub write_pos: usize,
    pub sample_rate: u32,
}

impl<T: Copy> SampleRing<T> {
    /// The buffer is not empty, the write position lies inside it, and positions can be added
    /// without overflow.
    pub open spec fn wf(&self) -> bool {
        &&& self.buffer@.len() > 0
        &&& self.write_pos < self.buffer@.len()
        &&& self.buffer@.len() <= usize::MAX / 2
    }

    /// The samples held, oldest first.
    pub open spec fn contents(&self) -> Seq<T> {
        self.buffer@.skip(self.write_pos as int) + self.buffer@.take(self.write_pos as int)
    }

    proof fn lemma_contents_at(&self, j: int)
        requires
            self.wf(),
            0 <= j < self.buffer@.len(),
        ensures
            self.contents().len() == self.buffer@.len(),
            self.contents()[j] == self.buffer@[(self.write_pos + j) % (self.buffer@.len() as int)],
    {
        let n = self.buffer@.len() as int;
        lemma_mod_once(self.write_pos + j, n);
    }

    /// A buffer of `capacity` samples, all `fill`, at 44100 samples per second.
    pub fn new(capacity: usize, fill: T) -> (r: Self)
        requires
            0 < capacity <= usize::MAX / 2,
        ensures
            r.wf(),
            r.contents() == Seq::new(capacity as nat, |i: int| fill),
            r.sample_rate == 44100,
    {
        let mut buffer: Vec<T> = Vec::new();
        let mut i: usize = 0;
        while i < capacity
            invariant
                i <= capacity,
                buffer@ == Seq::new(i as nat, |k: int| fill),
            decreases capacity - i,
        {
            buffer.push(fill);
            assert(buffer@ =~= Seq::new((i + 1) as nat, |k: int| fill));
            i = i + 1;
        }
        let r = SampleRing { buffer, write_pos: 0, sample_rate: 44100 };
        assert(r.contents() =~= Seq::new(capacity as nat, |k: int| fill));
        r
    }

    /// The number of samples held.
    pub fn capacity(&self) -> (r: usize)
        requires
            self.wf(),
        ensures
            r == self.contents().len(),
    {
        proof {
            self.lemma_contents_at(0);
        }
        self.buffer.len()
    }

    /// Writes one sample over the oldest.
    pub fn push(&mut self, sample: T)
        requires
            old(self).wf(),
        ensures
            final(self).wf(),
            final(self).contents() == old(self).contents().drop_first().push(sample),
            final(self).sample_rate == old(self).sample_rate,
    {
        let ghost b = self.buffer@;
        let ghost w = self.write_pos as int;
        let len = self.buffer.len();
        self.buffer.set(self.write_pos, sample);
        self.write_pos = if self.write_pos + 1 < len { self.write_pos + 1 } else { 0 };
        proof {
            let old_c = b.skip(w) + b.take(w);
            let nb = b.update(w, sample);
            if w + 1 < len {
                assert(nb.skip(w + 1) =~= b.skip(w + 1));
                assert(nb.take(w + 1) =~= b.take(w).push(sample));
                assert(old_c.drop_first() =~= b.skip(w + 1) + b.take(w));
                assert(self.contents() =~= old_c.drop_first().push(sample));
            } else {
                assert(nb.skip(0) =~= nb);
                assert(nb.take(0) =~= Seq::<T>::empty());
                assert(nb =~= b.take(w).push(sample));
                assert(old_c.drop_first() =~= b.take(w));
                assert(self.contents() =~= old_c.drop_first().push(sample));
            }
        }
    }

    /// Writes the samples in order, each over the oldest.
    pub fn push_batch(&mut self, samples: &[T])
        requires
            old(self).wf(),
        ensures
            final(self).wf(),
            final(self).contents() == (old(self).contents() + samples@).skip(samples@.len() as int),
            final(self).sample_rate == old(self).sample_rate,
    {
        let mut i: usize = 0;
        while i < samples.len()
            invariant
                self.wf(),
                i <= samples@.len(),
                self.contents() == (old(self).contents() + samples@.take(i as int)).skip(i as int),
                self.sample_rate == old(self).sample_rate,
            decreases samples@.len() - i,
        {
            let ghost before = self.contents();
            self.push(samples[i]);
            proof {
                let all = old(self).contents() + samples@.take(i + 1);
                assert(samples@.take(i + 1) =~= samples@.take(i as int).push(samples@[i as int]));
                assert(all =~= (old(self).contents() + samples@.take(i as int)).push(samples@[i as int]));
                assert(all.skip(i + 1) =~= before.drop_first().push(samples@[i as int]));
            }
            i = i + 1;
        }
        assert(samples@.take(samples@.len() as int) =~= samples@);
    }

    /// The latest `count` samples (all of them if fewer are held), oldest first.
    pub fn read_latest(&self, count: usize) -> (r: Vec<T>)
        requires
            self.wf(),
        ensures
            r@ == self.contents().skip(self.contents().len() - (if count < self.contents().len() { count as int } else { self.contents().len() as int })),
    {
        let len = self.buffer.len();
        let count = if count < len { count } else { len };
        let start = (self.write_pos + len - count) % len;
        let mut result: Vec<T> = Vec::new();
        let mut i: usize = 0;
        proof {
            self.lemma_contents_at(0);
        }
        let ghost c = self.contents();
        while i < count
            invariant
                self.wf(),
                len == self.buffer@.len(),
                count <= len,
                start < len,
                start == (self.write_pos + len - count) % (len as int),
                c == self.contents(),
                c.len() == len,
                i <= count,
                result@ == c.skip(len - count).take(i as int),
            decreases count - i,
        {
            let k = if start + i < len { start + i } else { start + i - len };
            proof {
                let n = len as int;
                lemma_mod_once(self.write_pos + n - count, n);
                lemma_mod_once(start + i, n);
                self.lemma_contents_at(n - count + i);
                lemma_mod_once(self.write_pos + (n - count + i), n);
                assert(k == (self.write_pos + (n - count + i)) % n);
            }
            result.push(self.buffer[k]);
            assert(result@ =~= c.skip(len - count).take(i + 1));
            i = i + 1;
        }
        assert(c.skip(len - count).take(count as int) =~= c.skip(len - count));
        result
    }
    /// Writes the latest samples into the front of `dest`, as many as `dest` holds (all the
    /// buffer holds if fewer), oldest first; the rest of `dest` is left as it was.
    pub fn read_latest_into(&self, dest: &mut Vec<T>)
        requires
            self.wf(),
        ensures
            ({
                let n = self.contents().len() as int;
                let c = if old(dest)@.len() < n { old(dest)@.len() as int } else { n };
                final(dest)@ == self.contents().skip(n - c) + old(dest)@.skip(c)
            }),
    {
        let latest = self.read_latest(dest.len());
        let ghost d0 = dest@;
        let mut i: usize = 0;
        while i < latest.len()
            invariant
                i <= latest@.len(),
                latest@.len() <= d0.len(),
                dest@.len() == d0.len(),
                dest@ == latest@.take(i as int) + d0.skip(i as int),
            decreases latest@.len() - i,
        {
            dest.set(i, latest[i]);
            assert(dest@ =~= latest@.take(i + 1) + d0.skip(i + 1));
            i = i + 1;
        }
        proof {
            self.lemma_contents_at(0);
            assert(latest@.take(latest@.len() as int) =~= latest@);
        }
    }
}

/// Writing samples (no more than the buffer holds) and then reading that many of the latest
/// gives back exactly the samples written, in order.
pub proof fn lemma_read_after_write<T>(held: Seq<T>, written: Seq<T>)
    requires
        written.len() <= held.len(),
    ensures
        ({
            let after = (held + written).skip(written.len() as int);
            after.len() == held.len() && after.skip(after.len() - written.len()) == written
        }),
{
    let after = (held + written).skip(written.len() as int);
    assert(after.skip(after.len() - written.len()) =~= written);
}

} // verus!
