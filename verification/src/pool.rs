//! A bounded stack of values kept for reuse.
use vstd::prelude::*;

verus! {

/// Values kept for reuse, at most `max_buf_num` of them.
pub struct Pool<T> {
    vec_pool: Vec<T>,
    max_buf_num: usize,
}

/// The kept values after `inner` was offered to a pool holding `kept` with
/// room for `max` values.
pub open spec fn kept_after_put<T>(kept: Seq<T>, max: int, inner: T) -> Seq<T> {
    if kept.len() < max {
        kept.push(inner)
    } else {
        kept
    }
}

/// An empty pool with room for 4096 values.
pub fn new<T: Default>() -> (r: Pool<T>)
    ensures
        r.kept() == Seq::<T>::empty(),
        r.max_buf_num() == 4096,
{
    Pool { vec_pool: Vec::new(), max_buf_num: 4096 }
}

impl<T: Default> Pool<T> {
    pub closed spec fn kept(&self) -> Seq<T> {
        self.vec_pool@
    }

    pub closed spec fn max_buf_num(&self) -> usize {
        self.max_buf_num
    }

    pub fn with_max_buf_num(self, size: usize) -> (r: Pool<T>)
        ensures
            r.kept() == self.kept(),
            r.max_buf_num() == size,
    {
        let mut s = self;
        s.max_buf_num = size;
        s
    }

    /// The most recently kept value, or `T::default()` when none is kept.
    pub fn get(&mut self) -> (r: T)
        ensures
            final(self).max_buf_num() == old(self).max_buf_num(),
            old(self).kept().len() > 0 ==> r == old(self).kept().last() && final(self).kept()
                == old(self).kept().drop_last(),
            old(self).kept().len() == 0 ==> final(self).kept() == old(self).kept() && call_ensures(
                T::default,
                (),
                r,
            ),
    {
        match self.vec_pool.pop() {
            Some(inner) => inner,
            None => T::default(),
        }
    }

    /// Keeps `inner` unless the pool is full.
    pub fn put(&mut self, inner: T)
        ensures
            final(self).max_buf_num() == old(self).max_buf_num(),
            final(self).kept() == kept_after_put(
                old(self).kept(),
                old(self).max_buf_num() as int,
                inner,
            ),
    {
        if self.vec_pool.len() < self.max_buf_num {
            self.vec_pool.push(inner)
        }
    }
}

/// What is put into a pool with room comes back out of the next `get`.
pub proof fn law_put_then_get<T>(kept: Seq<T>, max: int, inner: T)
    requires
        kept.len() < max,
    ensures
        kept_after_put(kept, max, inner).last() == inner,
        kept_after_put(kept, max, inner).drop_last() =~= kept,
{
}

} // verus!
