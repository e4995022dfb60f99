use vstd::prelude::*;
use crate::priority::Priority;

verus! {

/// Marks that an input has no further frames.
#[derive(Copy, Clone, Debug, PartialEq, Eq, Structural)]
pub struct EOFError;

/// What a node can deliver.
#[derive(Copy, Clone, Debug, PartialEq, Eq, Structural)]
pub struct Caps {
    /// The number of frames, when it is known.
    pub frame_count: Option<u64>,
    /// Whether frames may be pulled in any order; otherwise every frame has to
    /// be pulled (or dropped) in ascending order.
    pub random_access: bool,
}

impl Default for Caps {
    fn default() -> (c: Self)
        ensures
            c.frame_count is None,
            !c.random_access,
    {
        Caps { frame_count: None, random_access: false }
    }
}

/// Marks a request whose result may be dropped: the node pulls its inputs as
/// usual but may skip its own work.
#[derive(Copy, Clone, Debug, PartialEq, Eq, Structural)]
pub struct Drop;

/// Marks a request whose frame should stay in caches so that it can be
/// requested again.
#[derive(Copy, Clone, Debug, PartialEq, Eq, Structural)]
pub struct PinCache;

/// Identifies a node of a processing graph.
#[derive(Copy, Clone, Debug, PartialEq, Eq, Hash, Structural)]
pub struct NodeID(pub u16);

impl NodeID {
    /// The id of the node at `index`; ids are 16 bit wide, so the index is
    /// taken modulo 2^16.
    pub fn from_index(index: usize) -> (id: NodeID)
        ensures
            id.0 == index as u16,
    {
        #[verifier::truncate]
        let v = index as u16;
        NodeID(v)
    }

    pub fn index(self) -> (i: usize)
        ensures
            i == self.0 as usize,
    {
        self.0 as usize
    }
}

/// Progress reported by a sink.
#[derive(Copy, Clone, Debug, PartialEq, Eq, Structural)]
pub struct ProgressUpdate {
    pub latest_frame: u64,
    pub total_frames: Option<u64>,
}

/// A request for a frame, passed from a sink up through the graph.
#[derive(Copy, Clone, Debug, PartialEq, Eq, Structural)]
pub struct Request {
    frame_number: u64,
    priority: Priority,
    requester: NodeID,
    pin_cache: bool,
    drop_allowed: bool,
}

impl Request {
    pub closed spec fn spec_frame_number(self) -> u64 {
        self.frame_number
    }

    pub closed spec fn spec_priority(self) -> Priority {
        self.priority
    }

    pub closed spec fn spec_requester(self) -> NodeID {
        self.requester
    }

    pub closed spec fn spec_pin_cache(self) -> bool {
        self.pin_cache
    }

    pub closed spec fn spec_drop_allowed(self) -> bool {
        self.drop_allowed
    }

    /// A fresh request as a sink issues it: the priority is built from the
    /// output priority and the frame number, no requester and no markers.
    pub fn new(output_priority: u8, frame_number: u64) -> (r: Self)
        ensures
            r.spec_frame_number() == frame_number,
            r.spec_priority().0 == Priority::spec_new(output_priority, frame_number),
            r.spec_requester().0 == u16::MAX,
            !r.spec_pin_cache(),
            !r.spec_drop_allowed(),
    {
        Self {
            priority: Priority::new(output_priority, frame_number),
            frame_number,
            requester: NodeID(u16::MAX),
            pin_cache: false,
            drop_allowed: false,
        }
    }

    pub fn with_requester(&self, requester: NodeID) -> (r: Self)
        ensures
            r.spec_frame_number() == self.spec_frame_number(),
            r.spec_priority() == self.spec_priority(),
            r.spec_requester() == requester,
            r.spec_pin_cache() == self.spec_pin_cache(),
            r.spec_drop_allowed() == self.spec_drop_allowed(),
    {
        Self { requester, ..*self }
    }

    /// The same request for another frame; the priority is kept.
    pub fn with_frame_number(&self, frame_number: u64) -> (r: Self)
        ensures
            r.spec_frame_number() == frame_number,
            r.spec_priority() == self.spec_priority(),
            r.spec_requester() == self.spec_requester(),
            r.spec_pin_cache() == self.spec_pin_cache(),
            r.spec_drop_allowed() == self.spec_drop_allowed(),
    {
        Self { frame_number, ..*self }
    }

    /// The same request marked to keep its frame cached.
    pub fn with_pin_cache(&self) -> (r: Self)
        ensures
            r.spec_frame_number() == self.spec_frame_number(),
            r.spec_priority() == self.spec_priority(),
            r.spec_requester() == self.spec_requester(),
            r.spec_pin_cache() == true,
            r.spec_drop_allowed() == self.spec_drop_allowed(),
    {
        Self { pin_cache: true, ..*self }
    }

    /// The same request marked as droppable.
    pub fn with_drop(&self) -> (r: Self)
        ensures
            r.spec_frame_number() == self.spec_frame_number(),
            r.spec_priority() == self.spec_priority(),
            r.spec_requester() == self.spec_requester(),
            r.spec_pin_cache() == self.spec_pin_cache(),
            r.spec_drop_allowed() == true,
    {
        Self { drop_allowed: true, ..*self }
    }

    pub fn frame_number(&self) -> (f: u64)
        ensures
            f == self.spec_frame_number(),
    {
        self.frame_number
    }

    pub fn priority(&self) -> (p: Priority)
        ensures
            p == self.spec_priority(),
    {
        self.priority
    }

    pub fn requester(&self) -> (n: NodeID)
        ensures
            n == self.spec_requester(),
    {
        self.requester
    }

    /// The [`PinCache`] marker, when the request carries it.
    pub fn get_pin_cache(&self) -> (m: Option<PinCache>)
        ensures
            m is Some <==> self.spec_pin_cache(),
    {
        if self.pin_cache {
            Some(PinCache)
        } else {
            None
        }
    }

    /// The [`Drop`] marker, when the request carries it.
    pub fn get_drop(&self) -> (m: Option<Drop>)
        ensures
            m is Some <==> self.spec_drop_allowed(),
    {
        if self.drop_allowed {
            Some(Drop)
        } else {
            None
        }
    }
}

} // verus!
