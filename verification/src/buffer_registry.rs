//! A plain store of buffers by id, without locks or services.

use vstd::prelude::*;

use crate::buffer::Buffer;
use crate::data::id::BufferId;

verus! {

/// The buffers of `bs` with id `id`, if one has it.
pub open spec fn buffer_of(bs: Seq<Buffer>, id: BufferId) -> Option<Buffer> {
    if exists|i: int| 0 <= i < bs.len() && bs[i].spec_id() == id {
        Some(bs[choose|i: int| 0 <= i < bs.len() && bs[i].spec_id() == id])
    } else {
        None
    }
}

/// No two buffers of `bs` share an id.
pub open spec fn ids_distinct(bs: Seq<Buffer>) -> bool {
    forall|i: int, j: int| 0 <= i < j < bs.len() ==> bs[i].spec_id() != bs[j].spec_id()
}

/// Where the buffer of `bs` with id `id` sits, if one has it.
pub open spec fn slot_of(bs: Seq<Buffer>, id: BufferId) -> int {
    choose|i: int| 0 <= i < bs.len() && bs[i].spec_id() == id
}

proof fn lemma_buffer_at(bs: Seq<Buffer>, i: int)
    requires
        ids_distinct(bs),
        0 <= i < bs.len(),
    ensures
        buffer_of(bs, bs[i].spec_id()) == Some(bs[i]),
{
    let id = bs[i].spec_id();
    let j = choose|j: int| 0 <= j < bs.len() && bs[j].spec_id() == id;
    if j < i {
        assert(bs[j].spec_id() != bs[i].spec_id());
    } else if i < j {
        assert(bs[i].spec_id() != bs[j].spec_id());
    }
}

/// Buffers by id; ids are handed out in increasing order.
pub struct BufferRegistry {
    buffers: Vec<Buffer>,
    next_id: usize,
}

impl BufferRegistry {
    /// The buffers, in the order in which they were added.
    pub closed spec fn buffers(&self) -> Seq<Buffer> {
        self.buffers@
    }

    /// The id the next buffer gets.
    pub closed spec fn spec_next_id(&self) -> usize {
        self.next_id
    }

    /// Ids are distinct and below the next id; every buffer is well formed.
    pub open spec fn wf(&self) -> bool {
        &&& ids_distinct(self.buffers())
        &&& forall|i: int| 0 <= i < self.buffers().len() ==> (#[trigger] self.buffers()[i]).spec_id().0 < self.spec_next_id()
        &&& forall|i: int| 0 <= i < self.buffers().len() ==> (#[trigger] self.buffers()[i]).wf()
    }

    /// The buffer with id `id`.
    pub open spec fn spec_get(&self, id: BufferId) -> Option<Buffer> {
        buffer_of(self.buffers(), id)
    }

    /// No buffer; the first id is 0.
    pub fn new() -> (r: Self)
        ensures
            r.wf(),
            r.buffers().len() == 0,
            r.spec_next_id() == 0,
    {
        BufferRegistry { buffers: Vec::new(), next_id: 0 }
    }

    /// Adds `b`, which has the next id, and moves the next id on.
    fn push_new(&mut self, b: Buffer)
        requires
            old(self).wf(),
            old(self).spec_next_id() < usize::MAX,
            b.wf(),
            b.spec_id() == BufferId(old(self).spec_next_id()),
        ensures
            final(self).wf(),
            final(self).buffers() == old(self).buffers().push(b),
            final(self).spec_next_id() == old(self).spec_next_id() + 1,
    {
        self.buffers.push(b);
        self.next_id = self.next_id + 1;
    }

    /// Adds an empty buffer under the next id.
    pub fn create(&mut self) -> (id: BufferId)
        requires
            old(self).wf(),
            old(self).spec_next_id() < usize::MAX,
        ensures
            final(self).wf(),
            id == BufferId(old(self).spec_next_id()),
            final(self).spec_next_id() == old(self).spec_next_id() + 1,
            final(self).buffers() == old(self).buffers().push(final(self).buffers().last()),
            final(self).buffers().last().spec_id() == id,
            final(self).buffers().last().text().len() == 0,
            final(self).buffers().last().spec_path() is None,
            !final(self).buffers().last().spec_dirty(),
    {
        let id = BufferId(self.next_id);
        let b = Buffer::new(id);
        proof {
            assert(b.text() == b.texts()[0]);
        }
        self.push_new(b);
        id
    }

    /// Adds a buffer holding `contents`, read from the file at `path`, under
    /// the next id.
    pub fn open(&mut self, path: String, contents: &str) -> (id: BufferId)
        requires
            old(self).wf(),
            old(self).spec_next_id() < usize::MAX,
        ensures
            final(self).wf(),
            id == BufferId(old(self).spec_next_id()),
            final(self).spec_next_id() == old(self).spec_next_id() + 1,
            final(self).buffers() == old(self).buffers().push(final(self).buffers().last()),
            final(self).buffers().last().spec_id() == id,
            final(self).buffers().last().text() == contents@,
            final(self).buffers().last().spec_path() == Some(path@),
            !final(self).buffers().last().spec_dirty(),
    {
        let id = BufferId(self.next_id);
        let b = Buffer::from_file_contents(id, path, contents);
        proof {
            assert(b.text() == b.texts()[0]);
        }
        self.push_new(b);
        id
    }

    /// Where the buffer with id `id` sits.
    fn slot(&self, id: BufferId) -> (r: Option<usize>)
        requires
            self.wf(),
        ensures
            match r {
                Some(i) => i < self.buffers().len() && self.buffers()[i as int].spec_id() == id
                    && self.spec_get(id) == Some(self.buffers()[i as int]),
                None => self.spec_get(id) is None,
            },
    {
        let mut i: usize = 0;
        while i < self.buffers.len()
            invariant
                self.wf(),
                i <= self.buffers@.len(),
                forall|j: int| 0 <= j < i ==> (#[trigger] self.buffers@[j]).spec_id() != id,
            decreases self.buffers@.len() - i,
        {
            if self.buffers[i].id() == id {
                proof {
                    lemma_buffer_at(self.buffers@, i as int);
                }
                return Some(i);
            }
            i = i + 1;
        }
        None
    }

    /// The buffer with id `id`, if there is one.
    pub fn get(&self, id: BufferId) -> (r: Option<&Buffer>)
        requires
            self.wf(),
        ensures
            match self.spec_get(id) {
                Some(b) => r == Some(&b),
                None => r is None,
            },
    {
        match self.slot(id) {
            Some(i) => Some(&self.buffers[i]),
            None => None,
        }
    }

    /// The buffer with id `id`, if there is one, to change in place: what it
    /// holds when the borrow ends takes that buffer's place.
    pub fn get_mut(&mut self, id: BufferId) -> (r: Option<&mut Buffer>)
        requires
            old(self).wf(),
        ensures
            final(self).spec_next_id() == old(self).spec_next_id(),
            old(self).spec_get(id) is None ==> r is None && final(self).buffers() == old(self).buffers(),
            old(self).spec_get(id) matches Some(b) ==> r matches Some(m) && *m == b
                && final(self).buffers() == old(self).buffers().update(slot_of(old(self).buffers(), id), *final(m)),
    {
        match self.slot(id) {
            Some(i) => Some(&mut self.buffers[i]),
            None => None,
        }
    }

    /// Removes the buffer with id `id`, if there is one; the others keep
    /// their order.
    pub fn remove(&mut self, id: BufferId)
        requires
            old(self).wf(),
        ensures
            final(self).wf(),
            final(self).spec_next_id() == old(self).spec_next_id(),
            final(self).spec_get(id) is None,
            forall|x: BufferId| x != id ==> #[trigger] final(self).spec_get(x) == old(self).spec_get(x),
            old(self).spec_get(id) is None ==> final(self).buffers() == old(self).buffers(),
    {
        match self.slot(id) {
            Some(i) => {
                let ghost before = self.buffers@;
                let _ = self.buffers.remove(i);
                proof {
                    let after = self.buffers@;
                    assert(after =~= before.remove(i as int));
                    assert forall|j: int| 0 <= j < after.len() implies (#[trigger] after[j]).spec_id() != id by {
                        if j >= i {
                            assert(after[j] == before[j + 1]);
                        }
                    }
                    assert forall|x: BufferId| x != id implies #[trigger] buffer_of(after, x) == buffer_of(before, x) by {
                        if exists|k: int| 0 <= k < before.len() && before[k].spec_id() == x {
                            let k = choose|k: int| 0 <= k < before.len() && before[k].spec_id() == x;
                            lemma_buffer_at(before, k);
                            let kk = if k < i { k } else { k - 1 };
                            assert(after[kk] == before[k]);
                            lemma_buffer_at(after, kk);
                        } else {
                            assert forall|k: int| 0 <= k < after.len() implies after[k].spec_id() != x by {
                                if k >= i {
                                    assert(after[k] == before[k + 1]);
                                }
                            }
                        }
                    }
                }
            },
            None => {},
        }
    }
}

} // verus!
