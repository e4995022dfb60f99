use vstd::prelude::*;

verus! {

/// Tasks waiting to run, each with a priority key; the task with the
/// smallest key runs first, and among equal keys the one queued first.
pub struct TaskQueue<T> {
    entries: Vec<(u64, T)>,
}

/// The position of the entry that runs next: the first one with the
/// smallest key.
pub open spec fn is_next<T>(entries: Seq<(u64, T)>, i: int) -> bool {
    &&& 0 <= i < entries.len()
    &&& forall|j: int| 0 <= j < entries.len() ==> entries[i].0 <= #[trigger] entries[j].0
    &&& forall|j: int| 0 <= j < i ==> entries[i].0 < #[trigger] entries[j].0
}

impl<T> TaskQueue<T> {
    /// The queued tasks with their keys, in the order they were queued.
    pub closed spec fn view(&self) -> Seq<(u64, T)> {
        self.entries@
    }

    pub fn new() -> (q: Self)
        ensures
            q.view() == Seq::<(u64, T)>::empty(),
    {
        TaskQueue { entries: Vec::new() }
    }

    pub fn len(&self) -> (n: usize)
        ensures
            n == self.view().len(),
    {
        self.entries.len()
    }

    /// Queues `task` with priority `key`.
    pub fn push(&mut self, key: u64, task: T)
        ensures
            final(self).view() == old(self).view().push((key, task)),
    {
        self.entries.push((key, task));
    }

    /// Takes out the task that runs next (see `is_next`), if any.
    pub fn pop(&mut self) -> (r: Option<(u64, T)>)
        ensures
            old(self).view().len() == 0 ==> r is None && final(self).view() == old(self).view(),
            old(self).view().len() > 0 ==> exists|i: int|
                #![trigger is_next(old(self).view(), i)]
                is_next(old(self).view(), i) && r == Some(old(self).view()[i])
                    && final(self).view() == old(self).view().remove(i),
    {
        let n = self.entries.len();
        if n == 0 {
            return None;
        }
        let ghost s = self.entries@;
        let mut best: usize = 0;
        let mut i: usize = 1;
        while i < n
            invariant
                n == s.len(),
                s == self.entries@,
                1 <= i <= n,
                best < i,
                forall|j: int| 0 <= j < i ==> s[best as int].0 <= #[trigger] s[j].0,
                forall|j: int| 0 <= j < best ==> s[best as int].0 < #[trigger] s[j].0,
            decreases n - i,
        {
            if self.entries[i].0 < self.entries[best].0 {
                best = i;
            }
            i = i + 1;
        }
        let e = self.entries.remove(best);
        proof {
            assert(is_next(s, best as int));
        }
        Some(e)
    }
}

/// Tasks run by priority: whenever a task is taken out, no queued task has a
/// smaller key, and every earlier queued task with the same key has run.
pub proof fn lemma_pop_order<T>(entries: Seq<(u64, T)>, i: int, j: int)
    requires
        is_next(entries, i),
        0 <= j < entries.len(),
    ensures
        entries[i].0 <= entries[j].0,
        j < i ==> entries[i].0 < entries[j].0,
{
}

} // verus!
