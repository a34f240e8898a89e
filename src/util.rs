use vstd::prelude::*;

verus! {

/// A reader together with the number of bytes read through it so far.
pub struct ReadCounter<R> {
    reader: R,
    count: u64,
}

impl<R> ReadCounter<R> {
    pub closed spec fn inner(&self) -> R {
        self.reader
    }

    pub closed spec fn spec_count(&self) -> u64 {
        self.count
    }

    pub fn new(reader: R) -> (r: Self)
        ensures
            r.inner() == reader,
            r.spec_count() == 0,
    {
        ReadCounter { reader, count: 0 }
    }

    pub fn get_ref(&self) -> (r: &R)
        ensures
            *r == self.inner(),
    {
        &self.reader
    }

    pub fn count(&self) -> (r: u64)
        ensures
            r == self.spec_count(),
    {
        self.count
    }

    /// Accounts for `n` more bytes read, saturating at the largest count.
    pub fn add(&mut self, n: usize)
        ensures
            final(self).inner() == old(self).inner(),
            final(self).spec_count() == if old(self).spec_count() + n > u64::MAX {
                u64::MAX as int
            } else {
                old(self).spec_count() + n
            },
    {
        let n = n as u64;
        self.count = self.count.saturating_add(n);
    }

    pub fn into_inner(self) -> (r: R)
        ensures
            r == self.inner(),
    {
        self.reader
    }
}

} // verus!
