use vstd::prelude::*;
use std::collections::HashMap;

verus! {

broadcast use vstd::std_specs::hash::group_hash_axioms;

/// The number of frames a cache node holds unless told otherwise.
pub const DEFAULT_CACHE_SIZE: usize = 1usize;

/// The outcome of looking a frame up in a [`FrameCache`].
#[derive(Debug)]
pub enum CacheLookup<V> {
    /// The frame was cached; here is a clone of it.
    Hit(V),
    /// The frame is not cached and there is room: pull it and insert it.
    Miss,
    /// The frame is not cached and the cache is full: wait and try again.
    Full,
}

/// The bookkeeping of the frame cache node: cached frames together with the
/// number of consumers that still have to take them.
pub struct FrameCache<V> {
    entries: HashMap<u64, (V, usize)>,
    capacity: usize,
    nodes_to_feed: usize,
}

impl<V> FrameCache<V> {
    #[verifier::type_invariant]
    spec fn inv(self) -> bool {
        &&& self.entries@.len() <= self.capacity
        &&& forall|k: u64| #[trigger] self.entries@.contains_key(k) ==> self.entries@[k].1 > 0
    }

    /// The cached frames with their remaining consumer counts.
    pub closed spec fn view(&self) -> Map<u64, (V, usize)> {
        self.entries@
    }

    pub closed spec fn spec_capacity(&self) -> usize {
        self.capacity
    }

    pub closed spec fn spec_nodes_to_feed(&self) -> usize {
        self.nodes_to_feed
    }

    /// An empty cache for `capacity` frames whose node feeds `nodes_to_feed` consumers.
    pub fn new(capacity: usize, nodes_to_feed: usize) -> (c: Self)
        ensures
            c.view() == Map::<u64, (V, usize)>::empty(),
            c.spec_capacity() == capacity,
            c.spec_nodes_to_feed() == nodes_to_feed,
    {
        let entries = HashMap::with_capacity(capacity);
        FrameCache { entries, capacity, nodes_to_feed }
    }

    pub fn capacity(&self) -> (c: usize)
        ensures
            c == self.spec_capacity(),
    {
        self.capacity
    }

    pub fn len(&self) -> (n: usize)
        ensures
            n == self.view().len(),
            n <= self.spec_capacity(),
    {
        proof {
            use_type_invariant(self);
        }
        self.entries.len()
    }

    /// How many consumers the cached `frame_number` still has to feed, if it
    /// is cached.
    pub fn remaining(&self, frame_number: u64) -> (r: Option<usize>)
        ensures
            r == if self.view().contains_key(frame_number) {
                Some(self.view()[frame_number].1)
            } else {
                None::<usize>
            },
    {
        match self.entries.get(&frame_number) {
            Some(entry) => Some(entry.1),
            None => None,
        }
    }

    /// A request for `frame_number` can be served once the frame is cached or
    /// there is room for it.
    pub fn can_proceed(&self, frame_number: u64) -> (r: bool)
        ensures
            r == (self.view().contains_key(frame_number) || self.view().len() < self.spec_capacity()),
    {
        self.entries.contains_key(&frame_number) || self.entries.len() < self.capacity
    }

    /// The number of consumers a freshly pulled frame still has to feed: all
    /// of them when it is pinned, all but the one that pulled it otherwise.
    pub open spec fn spec_to_feed(&self, pin: bool) -> usize {
        if pin {
            self.spec_nodes_to_feed()
        } else {
            (self.spec_nodes_to_feed() - 1) as usize
        }
    }

    /// Serves `frame_number` from the cache when possible. A request that does
    /// not pin the frame consumes it once; the last consumer evicts it.
    pub fn lookup(&mut self, frame_number: u64, pin: bool) -> (r: CacheLookup<V>) where V: Clone
        ensures
            final(self).spec_capacity() == old(self).spec_capacity(),
            final(self).spec_nodes_to_feed() == old(self).spec_nodes_to_feed(),
            old(self).view().contains_key(frame_number) ==> {
                let (v, count) = old(self).view()[frame_number];
                &&& r matches CacheLookup::Hit(x) && cloned::<V>(v, x)
                &&& final(self).view() == if pin {
                    old(self).view()
                } else if count == 1 {
                    old(self).view().remove(frame_number)
                } else {
                    old(self).view().insert(frame_number, (v, (count - 1) as usize))
                }
            },
            !old(self).view().contains_key(frame_number) ==> {
                &&& final(self).view() == old(self).view()
                &&& if old(self).view().len() < old(self).spec_capacity() {
                    r is Miss
                } else {
                    r is Full
                }
            },
    {
        proof {
            use_type_invariant(&*self);
        }
        match self.entries.get(&frame_number) {
            Some(entry) => {
                let payload = entry.0.clone();
                let count = entry.1;
                if !pin {
                    let remaining = count - 1;
                    let mut entries: HashMap<u64, (V, usize)> = HashMap::new();
                    std::mem::swap(&mut entries, &mut self.entries);
                    let removed = entries.remove(&frame_number);
                    proof {
                        assert(entries@.dom() == old(self).entries@.dom().remove(frame_number));
                    }
                    if remaining > 0 {
                        if let Some((v, _)) = removed {
                            let _ = entries.insert(frame_number, (v, remaining));
                            proof {
                                assert(entries@.dom() == old(self).entries@.dom());
                            }
                        }
                    }
                    self.entries = entries;
                }
                CacheLookup::Hit(payload)
            },
            None => {
                if self.entries.len() < self.capacity {
                    CacheLookup::Miss
                } else {
                    CacheLookup::Full
                }
            },
        }
    }

    /// Inserts a frame that was pulled after a [`CacheLookup::Miss`], unless
    /// it has no consumer left to feed (it was not pinned and its only
    /// consumer took it): such a frame is not kept.
    pub fn insert_pulled(&mut self, frame_number: u64, pin: bool, payload: V)
        requires
            !old(self).view().contains_key(frame_number),
            old(self).view().len() < old(self).spec_capacity(),
            !pin ==> old(self).spec_nodes_to_feed() >= 1,
        ensures
            final(self).spec_capacity() == old(self).spec_capacity(),
            final(self).spec_nodes_to_feed() == old(self).spec_nodes_to_feed(),
            final(self).view() == if old(self).spec_to_feed(pin) > 0 {
                old(self).view().insert(frame_number, (payload, old(self).spec_to_feed(pin)))
            } else {
                old(self).view()
            },
    {
        proof {
            use_type_invariant(&*self);
        }
        let to_feed = if pin {
            self.nodes_to_feed
        } else {
            self.nodes_to_feed - 1
        };
        if to_feed == 0 {
            return;
        }
        let mut entries: HashMap<u64, (V, usize)> = HashMap::new();
        std::mem::swap(&mut entries, &mut self.entries);
        let _ = entries.insert(frame_number, (payload, to_feed));
        proof {
            assert(entries@.dom() =~= old(self).entries@.dom().insert(frame_number));
        }
        self.entries = entries;
    }
}

/// A frame inserted after a miss is what the next lookup of it serves: the
/// cache then holds it with the given number of consumers, and the other
/// frames stay as they were.
pub proof fn lemma_lookup_after_insert<V>(
    cached: Map<u64, (V, usize)>,
    frame_number: u64,
    payload: V,
    to_feed: usize,
    other: u64,
)
    ensures
        cached.insert(frame_number, (payload, to_feed)).contains_key(frame_number),
        cached.insert(frame_number, (payload, to_feed))[frame_number] == (payload, to_feed),
        other != frame_number ==> cached.insert(frame_number, (payload, to_feed)).contains_key(other)
            == cached.contains_key(other),
{
}

/// A frame that is not pinned and has a single consumer is not kept once it
/// was pulled, so such pulls never fill the cache.
pub proof fn lemma_single_consumer_frames_not_kept<V>(cache: FrameCache<V>)
    requires
        cache.spec_nodes_to_feed() == 1,
    ensures
        cache.spec_to_feed(false) == 0,
{
}

} // verus!
