use vstd::prelude::*;

verus! {

/// The capture buffers handed to a video device, one slot per buffer index:
/// a slot holds the buffer queued under its index until it is dequeued.
pub struct BufferSlots {
    slots: Vec<Option<Vec<u8>>>,
}

/// The contents of the slots.
pub open spec fn slot_contents(slots: Seq<Option<Vec<u8>>>) -> Seq<Option<Seq<u8>>> {
    slots.map_values(
        |s: Option<Vec<u8>>|
            match s {
                Some(b) => Some(b@),
                None => None,
            },
    )
}

/// The first empty slot from `i` on, if there is one.
pub open spec fn first_free_from(s: Seq<Option<Seq<u8>>>, i: int) -> Option<int>
    decreases s.len() - i,
{
    if i < 0 || i >= s.len() {
        None
    } else if s[i] is None {
        Some(i)
    } else {
        first_free_from(s, i + 1)
    }
}

/// The first empty slot, if there is one.
pub open spec fn first_free(s: Seq<Option<Seq<u8>>>) -> Option<int> {
    first_free_from(s, 0)
}

proof fn lemma_first_free_from(s: Seq<Option<Seq<u8>>>, i: int)
    requires
        0 <= i,
    ensures
        first_free_from(s, i) matches Some(k) ==> i <= k < s.len() && s[k] is None && forall|j: int|
            i <= j < k ==> s[j] is Some,
        first_free_from(s, i) is None ==> forall|j: int| i <= j < s.len() ==> s[j] is Some,
    decreases s.len() - i,
{
    if i < s.len() && s[i] is Some {
        lemma_first_free_from(s, i + 1);
    }
}

/// The slots after queueing `buffer` into the first empty one, and its index.
pub open spec fn spec_enqueue(s: Seq<Option<Seq<u8>>>, buffer: Seq<u8>) -> (Seq<Option<Seq<u8>>>, Option<int>) {
    match first_free(s) {
        Some(i) => (s.update(i, Some(buffer)), Some(i)),
        None => (s, None),
    }
}

/// The slots after dequeueing slot `index`, and what it held.
pub open spec fn spec_dequeue(s: Seq<Option<Seq<u8>>>, index: int) -> (Seq<Option<Seq<u8>>>, Option<Seq<u8>>) {
    if 0 <= index < s.len() {
        (s.update(index, None), s[index])
    } else {
        (s, None)
    }
}

impl BufferSlots {
    pub closed spec fn view(&self) -> Seq<Option<Seq<u8>>> {
        slot_contents(self.slots@)
    }

    /// `count` empty slots.
    pub fn new(count: usize) -> (b: Self)
        ensures
            b.view().len() == count,
            forall|i: int| 0 <= i < count ==> b.view()[i] is None,
    {
        let mut slots: Vec<Option<Vec<u8>>> = Vec::new();
        let mut i: usize = 0;
        while i < count
            invariant
                i <= count,
                slots@.len() == i,
                forall|j: int| 0 <= j < i ==> slots@[j] is None,
            decreases count - i,
        {
            slots.push(None);
            i = i + 1;
        }
        BufferSlots { slots }
    }

    /// Puts `buffer` into the first empty slot and gives its index; `None`,
    /// with nothing changed, when every slot is taken.
    pub fn enqueue(&mut self, buffer: Vec<u8>) -> (r: Option<usize>)
        ensures
            final(self).view() == spec_enqueue(old(self).view(), buffer@).0,
            r == match spec_enqueue(old(self).view(), buffer@).1 {
                Some(i) => Some(i as usize),
                None => None::<usize>,
            },
    {
        let ghost s = self.view();
        assert(s == old(self).view());
        let mut i: usize = 0;
        while i < self.slots.len()
            invariant
                s == self.view(),
                s == old(self).view(),
                s == slot_contents(self.slots@),
                i <= self.slots@.len(),
                first_free(s) == first_free_from(s, i as int),
            decreases self.slots@.len() - i,
        {
            if self.slots[i].is_none() {
                proof {
                    assert(s[i as int] is None);
                    assert(first_free_from(s, i as int) == Some(i as int));
                }
                self.slots.set(i, Some(buffer));
                proof {
                    assert(self.view() =~= s.update(i as int, Some(buffer@)));
                }
                return Some(i);
            }
            proof {
                assert(s[i as int] is Some);
                assert(first_free_from(s, i as int) == first_free_from(s, i + 1));
            }
            i = i + 1;
        }
        None
    }

    /// Takes the buffer out of slot `index`; `None` when the slot is empty or
    /// there is no such slot.
    pub fn dequeue(&mut self, index: usize) -> (r: Option<Vec<u8>>)
        ensures
            final(self).view() == spec_dequeue(old(self).view(), index as int).0,
            match r {
                Some(b) => spec_dequeue(old(self).view(), index as int).1 == Some(b@),
                None => spec_dequeue(old(self).view(), index as int).1 is None,
            },
    {
        if index >= self.slots.len() {
            return None;
        }
        let ghost s = self.view();
        let taken = self.slots.remove(index);
        self.slots.insert(index, None);
        proof {
            assert(self.view() =~= s.update(index as int, None));
        }
        taken
    }
}

/// A buffer queued into a slot is what dequeueing that slot gives back, and
/// the slot is empty again afterwards.
pub proof fn lemma_dequeue_returns_enqueued(s: Seq<Option<Seq<u8>>>, buffer: Seq<u8>)
    requires
        spec_enqueue(s, buffer).1 is Some,
    ensures
        ({
            let (after, index) = spec_enqueue(s, buffer);
            let (back, got) = spec_dequeue(after, index.unwrap());
            got == Some(buffer) && back == s
        }),
{
    lemma_first_free_from(s, 0);
    let i = first_free(s).unwrap();
    assert(s.update(i, Some(buffer)).update(i, None) =~= s);
}

/// A frame of BGR pixels as RGB: for every complete pixel that fits into
/// `output_len` bytes the first and the third byte trade places; bytes after
/// the last such pixel are zero.
pub open spec fn spec_swap_red_blue(src: Seq<u8>, output_len: nat) -> Seq<u8> {
    let pixels = if src.len() / 3 < output_len / 3 {
        src.len() / 3
    } else {
        output_len / 3
    };
    Seq::new(
        output_len,
        |i: int|
            if i / 3 < pixels {
                src[3 * (i / 3) + 2 - i % 3]
            } else {
                0u8
            },
    )
}

/// See `spec_swap_red_blue`.
pub fn swap_red_blue(src: &[u8], output_len: usize) -> (out: Vec<u8>)
    ensures
        out@ == spec_swap_red_blue(src@, output_len as nat),
{
    let pixels: usize = if src.len() / 3 < output_len / 3 {
        src.len() / 3
    } else {
        output_len / 3
    };
    let mut out: Vec<u8> = Vec::new();
    let mut i: usize = 0;
    while i < output_len
        invariant
            i <= output_len,
            out@.len() == i,
            pixels == (if src@.len() / 3 < (output_len as nat) / 3 {
                src@.len() / 3
            } else {
                (output_len as nat) / 3
            }),
            forall|j: int| 0 <= j < i ==> #[trigger] out@[j] == spec_swap_red_blue(src@, output_len as nat)[j],
        decreases output_len - i,
    {
        if i / 3 < pixels {
            out.push(src[3 * (i / 3) + 2 - i % 3]);
        } else {
            out.push(0);
        }
        i = i + 1;
    }
    proof {
        assert(out@ =~= spec_swap_red_blue(src@, output_len as nat));
    }
    out
}

} // verus!
