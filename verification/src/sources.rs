//! The source images that instructions copy from, by key.

use vstd::prelude::*;

use crate::canvas::Canvas;
use crate::raster::Raster;

verus! {

/// Source images bound to keys. A key resolves to the image bound to it last;
/// a key with no binding resolves to the common image, where there is one.
pub struct Sources {
    bound: Vec<(String, Canvas)>,
    common: Option<Canvas>,
}

/// The image that the last of the first `n` bindings of `key` names.
spec fn last_bound(bound: Seq<(String, Canvas)>, key: Seq<char>, n: int) -> Option<Raster>
    decreases n,
{
    if n <= 0 {
        None
    } else if bound[n - 1].0@ == key {
        Some(bound[n - 1].1@)
    } else {
        last_bound(bound, key, n - 1)
    }
}

impl Sources {
    /// The image that `key` resolves to.
    pub closed spec fn resolve(&self, key: Seq<char>) -> Option<Raster> {
        match last_bound(self.bound@, key, self.bound@.len() as int) {
            Some(image) => Some(image),
            None => match self.common {
                Some(image) => Some(image@),
                None => None,
            },
        }
    }

    /// No key resolves.
    pub fn new() -> (sources: Sources)
        ensures
            forall|key: Seq<char>| sources.resolve(key) is None,
    {
        Sources { bound: Vec::new(), common: None }
    }

    /// Every key resolves to `image`.
    pub fn uniform(image: Canvas) -> (sources: Sources)
        ensures
            forall|key: Seq<char>| sources.resolve(key) == Some(image@),
    {
        Sources { bound: Vec::new(), common: Some(image) }
    }

    /// Binds `key` to `image`; every other key resolves as before.
    pub fn bind(&mut self, key: String, image: Canvas)
        ensures
            forall|k: Seq<char>|
                final(self).resolve(k) == if k == key@ {
                    Some(image@)
                } else {
                    old(self).resolve(k)
                },
    {
        let ghost before = self.bound@;
        self.bound.push((key, image));
        proof {
            assert forall|k: Seq<char>| k != key@ implies last_bound(
                self.bound@,
                k,
                self.bound@.len() as int,
            ) == last_bound(before, k, before.len() as int) by {
                lemma_last_bound_prefix(before, self.bound@, k, before.len() as int);
            }
        }
    }

    /// The image that `key` resolves to, where it resolves.
    pub fn find(&self, key: &str) -> (image: Option<&Canvas>)
        ensures
            match image {
                Some(canvas) => self.resolve(key@) == Some(canvas@),
                None => self.resolve(key@) is None,
            },
    {
        let wanted = key.to_owned();
        let mut n: usize = self.bound.len();
        while n > 0
            invariant
                n <= self.bound.len(),
                wanted@ == key@,
                last_bound(self.bound@, key@, self.bound@.len() as int) == last_bound(
                    self.bound@,
                    key@,
                    n as int,
                ),
            decreases n,
        {
            n -= 1;
            if self.bound[n].0 == wanted {
                return Some(&self.bound[n].1);
            }
        }
        match &self.common {
            Some(image) => Some(image),
            None => None,
        }
    }
}

/// Bindings that a longer list shares with a shorter one resolve alike.
proof fn lemma_last_bound_prefix(
    short: Seq<(String, Canvas)>,
    long: Seq<(String, Canvas)>,
    key: Seq<char>,
    n: int,
)
    requires
        0 <= n <= short.len() <= long.len(),
        forall|i: int| 0 <= i < short.len() ==> short[i] == long[i],
    ensures
        last_bound(short, key, n) == last_bound(long, key, n),
    decreases n,
{
    if n > 0 {
        lemma_last_bound_prefix(short, long, key, n - 1);
    }
}

} // verus!
