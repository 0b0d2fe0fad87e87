use vstd::prelude::*;

use crate::buffer::{
    edited, joins_line_break, law_insert_after_remove, law_undo_after_edit, lemma_chars_within_boundary, lemma_edited_text,
    lemma_chars_within_mono, lemma_position_kept, line_byte, moved_to, redo_target, undo_target, position_byte, position_error, splice, Buffer,
    lemma_chars_within_bound, lemma_line_byte_bound,
};
use crate::data::id::BufferId;
use crate::data::{BufferChange, BufferPosition, LockToken};
use crate::registry::{broadcast, broadcast_queued, Registry};
use crate::rope::{
    breaks_upto, chars_within, line_count, line_text, rope_byte_to_line, rope_len_bytes,
    rope_len_lines, rope_line_string, rope_line_to_byte,
};
use crate::text::{char_boundary, str_len_bytes, trim_end_newline_code, trim_newlines, utf8_len};
use crate::value::ValueModel;

verus! {

/// The open buffers, each under an id of its own, and the id that the next
/// buffer gets.
pub struct BufferPlugin {
    buffers: Vec<Buffer>,
    next_id: usize,
}

/// The message of a request for a buffer that is not open.
pub open spec fn not_found_msg() -> Seq<char> {
    "buffer not found"@
}

/// The payload of the announcement of an insertion of `n` bytes at `p`.
pub open spec fn inserted_model(id: BufferId, p: BufferPosition, n: nat) -> ValueModel {
    BufferChange::Insert {
        buffer_id: id,
        start_position: p,
        end_position: BufferPosition {
            line_idx: p.line_idx,
            byte_col_idx: (p.byte_col_idx + n) as usize,
        },
    }.value_model()
}

/// What `BufferPlugin::insert` does: `new` and `new_reg` follow from `old`
/// and `old_reg` when it returns `r`.
pub open spec fn insert_outcome<H, S, C, R>(
    old: &BufferPlugin,
    new: &BufferPlugin,
    old_reg: Registry<H, S, C, R>,
    new_reg: Registry<H, S, C, R>,
    buffer_id: BufferId,
    position: BufferPosition,
    text: Seq<char>,
    lock_token: Option<LockToken>,
    r: Result<(), String>,
) -> bool {
    &&& !old.has(buffer_id) ==> (r matches Err(e) && e@ == not_found_msg())
        && new == old && new_reg == old_reg
    &&& old.has(buffer_id) ==> {
        let b0 = old.get(buffer_id);
        let t = b0.text();
        match position_byte(t, position) {
            None => (r matches Err(e) && e@ == position_error(t, position)) && *new
                == *old && new_reg == old_reg,
            Some(b) => if b0.edit_allowed(lock_token) {
                &&& r is Ok
                &&& old.same_but(new, buffer_id)
                &&& edited(
                    b0,
                    new.get(buffer_id),
                    splice(t, chars_within(t, b) as int, chars_within(t, b) as int, text),
                )
                &&& broadcast_queued(
                    old_reg,
                    new_reg,
                    "buffer_changed"@,
                    inserted_model(buffer_id, position, utf8_len(text)),
                )
            } else {
                (r matches Err(e) && e@ == "this buffer is locked"@) && *new
                    == *old && new_reg == old_reg
            },
        }
    }
}

/// What `BufferPlugin::remove` does: `new` and `new_reg` follow from `old`
/// and `old_reg` when it returns `r`.
pub open spec fn remove_outcome<H, S, C, R>(
    old: &BufferPlugin,
    new: &BufferPlugin,
    old_reg: Registry<H, S, C, R>,
    new_reg: Registry<H, S, C, R>,
    buffer_id: BufferId,
    start_position: BufferPosition,
    end_position: BufferPosition,
    lock_token: Option<LockToken>,
    r: Result<String, String>,
) -> bool {
    &&& !old.has(buffer_id) ==> (r matches Err(e) && e@ == not_found_msg())
        && new == old && new_reg == old_reg
    &&& old.has(buffer_id) ==> {
        let b0 = old.get(buffer_id);
        let t = b0.text();
        match (position_byte(t, start_position), position_byte(t, end_position)) {
            (None, _) => (r matches Err(e) && e@ == position_error(t, start_position))
                && new == old && new_reg == old_reg,
            (Some(_), None) => (r matches Err(e) && e@ == position_error(t, end_position))
                && new == old && new_reg == old_reg,
            (Some(sb), Some(eb)) => {
                let sc = chars_within(t, sb) as int;
                let ec = chars_within(t, eb) as int;
                if b0.edit_allowed(lock_token) {
                    &&& r matches Ok(removed) && removed@ == t.subrange(sc, ec)
                        && broadcast_queued(
                        old_reg,
                        new_reg,
                        "buffer_changed"@,
                        (BufferChange::Remove {
                            buffer_id,
                            position: start_position,
                            text: removed,
                        }).value_model(),
                    )
                    &&& old.same_but(new, buffer_id)
                    &&& edited(b0, new.get(buffer_id), splice(t, sc, ec, Seq::empty()))
                } else {
                    (r matches Err(e) && e@ == "this buffer is locked"@) && *new
                        == *old && new_reg == old_reg
                }
            },
        }
    }
}

/// What `BufferPlugin::undo` (or, with `forward`, `redo`) does: `new` and
/// `new_reg` follow from `old` and `old_reg` when it returns `r`.
pub open spec fn history_outcome<H, S, C, R>(
    old: &BufferPlugin,
    new: &BufferPlugin,
    old_reg: Registry<H, S, C, R>,
    new_reg: Registry<H, S, C, R>,
    buffer_id: BufferId,
    forward: bool,
    r: Result<(), String>,
) -> bool {
    &&& !old.has(buffer_id) ==> (r matches Err(e) && e@ == not_found_msg()) && *new == *old
        && new_reg == old_reg
    &&& old.has(buffer_id) ==> {
        let b0 = old.get(buffer_id);
        &&& r is Ok
        &&& old.same_but(new, buffer_id)
        &&& moved_to(
            b0,
            new.get(buffer_id),
            if forward {
                redo_target(b0)
            } else {
                undo_target(b0)
            },
        )
        &&& broadcast_queued(
            old_reg,
            new_reg,
            "buffer_changed"@,
            BufferChange::Reset(buffer_id).value_model(),
        )
    }
}

/// What `BufferPlugin::lock` does: `new` follows from `old` when it returns
/// `r`.
pub open spec fn lock_outcome(
    old: &BufferPlugin,
    new: &BufferPlugin,
    buffer_id: BufferId,
    r: Result<LockToken, String>,
) -> bool {
    &&& !old.has(buffer_id) ==> (r matches Err(e) && e@ == not_found_msg()) && *new == *old
    &&& old.has(buffer_id) && old.get(buffer_id).spec_lock() is Some ==> (r matches Err(e) && e@
        == "buffer is locked"@) && *new == *old
    &&& old.has(buffer_id) && old.get(buffer_id).spec_lock() is None ==> {
        let b0 = old.get(buffer_id);
        let b1 = new.get(buffer_id);
        &&& r matches Ok(t) && b1.spec_lock() == Some(t)
        &&& old.same_but(new, buffer_id)
        &&& b1.wf() && b1.texts() == b0.texts().take(b0.head() + 1).push(b0.text())
        &&& b1.head() == b0.head() + 1
        &&& b1.spec_id() == b0.spec_id() && b1.spec_path() == b0.spec_path()
        &&& b1.spec_dirty() == b0.spec_dirty()
    }
}

/// What `BufferPlugin::unlock` does: `new` follows from `old` when it returns
/// `r`.
pub open spec fn unlock_outcome(
    old: &BufferPlugin,
    new: &BufferPlugin,
    buffer_id: BufferId,
    key: LockToken,
    r: Result<(), String>,
) -> bool {
    &&& !old.has(buffer_id) ==> (r matches Err(e) && e@ == not_found_msg()) && *new == *old
    &&& old.has(buffer_id) ==> {
        let b0 = old.get(buffer_id);
        let b1 = new.get(buffer_id);
        &&& old.same_but(new, buffer_id)
        &&& b1.wf() && b1.texts() == b0.texts() && b1.head() == b0.head()
        &&& b1.spec_id() == b0.spec_id() && b1.spec_path() == b0.spec_path()
        &&& b1.spec_dirty() == b0.spec_dirty()
        &&& match b0.spec_lock() {
            None => (r matches Err(e) && e@ == "buffer is not locked"@) && b1.spec_lock() is None,
            Some(lock) => if lock == key {
                r is Ok && b1.spec_lock() is None
            } else {
                (r matches Err(e) && e@ == "invalid key"@) && b1.spec_lock() == b0.spec_lock()
            },
        }
    }
}

impl BufferPlugin {
    /// A buffer with id `id` is open.
    pub closed spec fn has(&self, id: BufferId) -> bool {
        exists|i: int| 0 <= i < self.buffers@.len() && self.buffers@[i].spec_id() == id
    }

    /// The open buffer with id `id`.
    pub closed spec fn get(&self, id: BufferId) -> Buffer {
        let i = choose|i: int| 0 <= i < self.buffers@.len() && self.buffers@[i].spec_id() == id;
        self.buffers@[i]
    }

    /// The id that the next buffer gets.
    pub closed spec fn spec_next_id(&self) -> usize {
        self.next_id
    }

    /// Ids are unique and below the next id; every buffer is well formed.
    pub closed spec fn wf(&self) -> bool {
        &&& forall|i: int, j: int|
            0 <= i < j < self.buffers@.len() ==> self.buffers@[i].spec_id()
                != self.buffers@[j].spec_id()
        &&& forall|i: int|
            0 <= i < self.buffers@.len() ==> (#[trigger] self.buffers@[i]).wf()
                && self.buffers@[i].spec_id().0 < self.next_id
    }

    /// `new` holds the same buffers as `self`, but for the one with id `id`.
    pub open spec fn same_but(&self, new: &Self, id: BufferId) -> bool {
        &&& new.wf()
        &&& new.spec_next_id() == self.spec_next_id()
        &&& forall|x: BufferId| #[trigger] new.has(x) == self.has(x)
        &&& forall|x: BufferId| x != id && self.has(x) ==> #[trigger] new.get(x) == self.get(x)
    }

    proof fn lemma_at(&self, id: BufferId, i: int)
        requires
            self.wf(),
            0 <= i < self.buffers@.len(),
            self.buffers@[i].spec_id() == id,
        ensures
            self.has(id),
            self.get(id) == self.buffers@[i],
    {
        let j = choose|j: int| 0 <= j < self.buffers@.len() && self.buffers@[j].spec_id() == id;
        assert(self.buffers@[j].spec_id() == id);
        if j != i {
            if j < i {
                assert(self.buffers@[j].spec_id() != self.buffers@[i].spec_id());
            } else {
                assert(self.buffers@[i].spec_id() != self.buffers@[j].spec_id());
            }
        }
    }

    proof fn lemma_update(old: &Self, new: &Self, i: int, b: Buffer)
        requires
            old.wf(),
            0 <= i < old.buffers@.len(),
            new.buffers@ == old.buffers@.update(i, b),
            new.next_id == old.next_id,
            b.spec_id() == old.buffers@[i].spec_id(),
            b.wf(),
        ensures
            old.same_but(new, b.spec_id()),
            new.has(b.spec_id()),
            new.get(b.spec_id()) == b,
    {
        let id = b.spec_id();
        assert(new.wf());
        new.lemma_at(id, i);
        assert forall|x: BufferId| #[trigger] new.has(x) == old.has(x) by {
            if old.has(x) {
                let j = choose|j: int| 0 <= j < old.buffers@.len() && old.buffers@[j].spec_id() == x;
                assert(new.buffers@[j].spec_id() == x);
            }
            if new.has(x) {
                let j = choose|j: int| 0 <= j < new.buffers@.len() && new.buffers@[j].spec_id() == x;
                assert(old.buffers@[j].spec_id() == x);
            }
        }
        assert forall|x: BufferId| x != id && old.has(x) implies #[trigger] new.get(x) == old.get(x) by {
            let j = choose|j: int| 0 <= j < old.buffers@.len() && old.buffers@[j].spec_id() == x;
            old.lemma_at(x, j);
            assert(j != i);
            new.lemma_at(x, j);
        }
    }

    /// No buffer is open; the first gets id 0.
    pub fn new() -> (p: Self)
        ensures
            p.wf(),
            p.spec_next_id() == 0,
            forall|x: BufferId| !p.has(x),
    {
        BufferPlugin { buffers: Vec::new(), next_id: 0 }
    }

    /// The position of the buffer with id `id`.
    fn slot(&self, id: BufferId) -> (r: Option<usize>)
        requires
            self.wf(),
        ensures
            match r {
                Some(i) => i < self.buffers@.len() && self.has(id) && self.get(id)
                    == self.buffers@[i as int],
                None => !self.has(id),
            },
    {
        let mut i: usize = 0;
        while i < self.buffers.len()
            invariant
                self.wf(),
                i <= self.buffers@.len(),
                forall|j: int| 0 <= j < i ==> self.buffers@[j].spec_id() != id,
            decreases self.buffers@.len() - i,
        {
            if self.buffers[i].id() == id {
                proof {
                    self.lemma_at(id, i as int);
                }
                return Some(i);
            }
            i = i + 1;
        }
        None
    }

    /// The buffer with id `id`.
    pub fn get_buffer(&self, buffer_id: BufferId) -> (r: Result<&Buffer, String>)
        requires
            self.wf(),
        ensures
            self.has(buffer_id) ==> (r matches Ok(b) && *b == self.get(buffer_id)),
            !self.has(buffer_id) ==> (r matches Err(e) && e@ == not_found_msg()),
    {
        match self.slot(buffer_id) {
            Some(i) => Ok(&self.buffers[i]),
            None => Err("buffer not found".to_owned()),
        }
    }

    /// The open buffer with id `buffer_id`, to change in place. Where what it
    /// holds when the borrow ends keeps its id and is well formed, it takes
    /// that buffer's place and the other buffers stay as they were.
    pub fn get_buffer_mut(&mut self, buffer_id: BufferId) -> (r: Result<&mut Buffer, String>)
        requires
            old(self).wf(),
        ensures
            old(self).has(buffer_id) ==> (r matches Ok(b) && *b == old(self).get(buffer_id)),
            old(self).has(buffer_id) ==> (r matches Ok(b) && (final(b).spec_id() == buffer_id && final(b).wf()
                ==> old(self).same_but(&*final(self), buffer_id) && final(self).get(buffer_id) == *final(b))),
            !old(self).has(buffer_id) ==> (r matches Err(e) && e@ == not_found_msg()) && *final(self)
                == *old(self),
    {
        match self.slot(buffer_id) {
            Some(i) => {
                let ghost before = *self;
                proof {
                    assert forall|new: Self|
                        #![trigger before.same_but(&new, buffer_id)]
                        new.buffers@ == before.buffers@.update(i as int, new.buffers@[i as int])
                            && new.next_id == before.next_id && new.buffers@[i as int].spec_id() == buffer_id
                            && new.buffers@[i as int].wf() implies before.same_but(&new, buffer_id)
                            && new.has(buffer_id) && new.get(buffer_id) == new.buffers@[i as int] by {
                        Self::lemma_update(&before, &new, i as int, new.buffers@[i as int]);
                    }
                }
                Ok(&mut self.buffers[i])
            },
            None => Err("buffer not found".to_owned()),
        }
    }

    /// The length of a buffer in bytes.
    pub fn len_bytes(&self, buffer_id: BufferId) -> (r: Result<usize, String>)
        requires
            self.wf(),
        ensures
            self.has(buffer_id) ==> (r matches Ok(n) && n == utf8_len(self.get(buffer_id).text())),
            !self.has(buffer_id) ==> (r matches Err(e) && e@ == not_found_msg()),
    {
        let buffer = self.get_buffer(buffer_id)?;
        proof {
            self.lemma_get_wf(buffer_id);
        }
        Ok(rope_len_bytes(buffer.rope()))
    }

    /// An open buffer is well formed and carries its id.
    pub proof fn lemma_get_wf(&self, id: BufferId)
        requires
            self.wf(),
            self.has(id),
        ensures
            self.get(id).wf(),
            self.get(id).spec_id() == id,
            self.get(id).spec_id().0 < self.spec_next_id(),
    {
        let i = choose|i: int| 0 <= i < self.buffers@.len() && self.buffers@[i].spec_id() == id;
        assert(self.buffers@[i].wf());
    }

    /// The number of lines of a buffer.
    pub fn len_lines(&self, buffer_id: BufferId) -> (r: Result<usize, String>)
        requires
            self.wf(),
        ensures
            self.has(buffer_id) ==> (r matches Ok(n) && n == line_count(self.get(buffer_id).text())),
            !self.has(buffer_id) ==> (r matches Err(e) && e@ == not_found_msg()),
    {
        let buffer = self.get_buffer(buffer_id)?;
        proof {
            self.lemma_get_wf(buffer_id);
        }
        Ok(rope_len_lines(buffer.rope()))
    }

    /// A line of a buffer without its line break.
    pub fn line(&self, buffer_id: BufferId, line_idx: usize) -> (r: Result<String, String>)
        requires
            self.wf(),
            self.has(buffer_id) ==> line_idx != line_count(self.get(buffer_id).text()),
        ensures
            !self.has(buffer_id) ==> (r matches Err(e) && e@ == not_found_msg()),
            self.has(buffer_id) ==> {
                let t = self.get(buffer_id).text();
                &&& line_idx > line_count(t) ==> (r matches Err(e) && e@
                    == "line_idx is out of range"@)
                &&& line_idx < line_count(t) ==> (r matches Ok(s) && s@ == trim_newlines(
                    line_text(t, line_idx as int),
                ))
            },
    {
        let buffer = self.get_buffer(buffer_id)?;
        proof {
            self.lemma_get_wf(buffer_id);
        }
        buffer.check_line_idx(line_idx)?;
        Ok(trim_end_newline_code(rope_line_string(buffer.rope(), line_idx)))
    }

    /// The length in bytes of a line of a buffer, without its line break.
    pub fn line_len_bytes(&self, buffer_id: BufferId, line_idx: usize) -> (r: Result<usize, String>)
        requires
            self.wf(),
            self.has(buffer_id) ==> line_idx != line_count(self.get(buffer_id).text()),
        ensures
            !self.has(buffer_id) ==> (r matches Err(e) && e@ == not_found_msg()),
            self.has(buffer_id) ==> {
                let t = self.get(buffer_id).text();
                &&& line_idx > line_count(t) ==> (r matches Err(e) && e@
                    == "line_idx is out of range"@)
                &&& line_idx < line_count(t) ==> (r matches Ok(n) && n == utf8_len(
                    trim_newlines(line_text(t, line_idx as int)),
                ))
            },
    {
        let line = self.line(buffer_id, line_idx)?;
        Ok(str_len_bytes(line.as_str()))
    }

    /// The lines from `start_line_idx` up to `end_line_idx` or the last line,
    /// each without its line break.
    pub fn lines(&self, buffer_id: BufferId, start_line_idx: usize, end_line_idx: usize) -> (r:
        Result<Vec<String>, String>)
        requires
            self.wf(),
        ensures
            !self.has(buffer_id) ==> (r matches Err(e) && e@ == not_found_msg()),
            self.has(buffer_id) ==> {
                let t = self.get(buffer_id).text();
                let last = if end_line_idx < line_count(t) {
                    end_line_idx as int
                } else {
                    line_count(t) as int
                };
                r matches Ok(v) && v@.len() == (if start_line_idx < last {
                    last - start_line_idx
                } else {
                    0
                }) && forall|k: int|
                    0 <= k < v@.len() ==> #[trigger] v@[k]@ == trim_newlines(
                        line_text(t, start_line_idx + k),
                    )
            },
    {
        let buffer = self.get_buffer(buffer_id)?;
        proof {
            self.lemma_get_wf(buffer_id);
        }
        let ghost t = buffer.text();
        let count = rope_len_lines(buffer.rope());
        let mut lines: Vec<String> = Vec::new();
        let mut line_idx = start_line_idx;
        while line_idx < end_line_idx && line_idx < count
            invariant
                buffer.wf(),
                t == buffer.text(),
                count == line_count(t),
                start_line_idx <= line_idx,
                line_idx <= end_line_idx || line_idx == start_line_idx,
                line_idx <= count || line_idx == start_line_idx,
                lines@.len() == line_idx - start_line_idx,
                forall|k: int|
                    0 <= k < lines@.len() ==> #[trigger] lines@[k]@ == trim_newlines(
                        line_text(t, start_line_idx + k),
                    ),
            decreases end_line_idx - line_idx,
        {
            lines.push(trim_end_newline_code(rope_line_string(buffer.rope(), line_idx)));
            line_idx = line_idx + 1;
        }
        Ok(lines)
    }

    /// The byte index of a position in a buffer.
    pub fn pos_to_byte(&self, buffer_id: BufferId, position: BufferPosition) -> (r: Result<
        usize,
        String,
    >)
        requires
            self.wf(),
        ensures
            !self.has(buffer_id) ==> (r matches Err(e) && e@ == not_found_msg()),
            self.has(buffer_id) ==> match position_byte(self.get(buffer_id).text(), position) {
                Some(b) => r matches Ok(x) && x == b,
                None => r matches Err(e) && e@ == position_error(
                    self.get(buffer_id).text(),
                    position,
                ),
            },
    {
        let buffer = self.get_buffer(buffer_id)?;
        proof {
            self.lemma_get_wf(buffer_id);
        }
        buffer.convert_position(position)
    }

    /// The position of a byte in a buffer: its line and its offset in it.
    pub fn byte_to_pos(&self, buffer_id: BufferId, byte_idx: usize) -> (r: Result<
        BufferPosition,
        String,
    >)
        requires
            self.wf(),
        ensures
            !self.has(buffer_id) ==> (r matches Err(e) && e@ == not_found_msg()),
            self.has(buffer_id) ==> {
                let t = self.get(buffer_id).text();
                &&& byte_idx > utf8_len(t) ==> (r matches Err(e) && e@
                    == "byte_idx is out of range"@)
                &&& byte_idx <= utf8_len(t) ==> (r matches Ok(p) && p.line_idx == breaks_upto(
                    t,
                    chars_within(t, byte_idx as int) as int,
                ) && p.byte_col_idx == byte_idx - line_byte(t, p.line_idx as int))
            },
    {
        let buffer = self.get_buffer(buffer_id)?;
        proof {
            self.lemma_get_wf(buffer_id);
        }
        buffer.check_byte_idx(byte_idx)?;
        let line_idx = rope_byte_to_line(buffer.rope(), byte_idx);
        proof {
            let t = buffer.text();
            let c = chars_within(t, byte_idx as int) as int;
            lemma_chars_within_bound(t, byte_idx as int);
            lemma_breaks_mono(t, c, t.len() as int);
            lemma_line_start_of(t, c);
            lemma_line_byte_bound(t, line_idx as int);
            crate::text::lemma_utf8_len_mono(t, crate::rope::line_start(t, line_idx as int), c);
        }
        let start = rope_line_to_byte(buffer.rope(), line_idx);
        Ok(BufferPosition { line_idx, byte_col_idx: byte_idx - start })
    }

    /// The ids of the open buffers, each once.
    pub fn id_list(&self) -> (r: Result<Vec<BufferId>, String>)
        requires
            self.wf(),
        ensures
            r matches Ok(v) && v@.no_duplicates() && forall|x: BufferId|
                v@.contains(x) <==> self.has(x),
    {
        let mut v: Vec<BufferId> = Vec::new();
        let mut i: usize = 0;
        while i < self.buffers.len()
            invariant
                self.wf(),
                i <= self.buffers@.len(),
                v@.len() == i,
                forall|k: int| 0 <= k < i ==> #[trigger] v@[k] == self.buffers@[k].spec_id(),
            decreases self.buffers@.len() - i,
        {
            v.push(self.buffers[i].id());
            i = i + 1;
        }
        proof {
            assert forall|a: int, b: int| 0 <= a < v@.len() && 0 <= b < v@.len() && a != b implies v@[a]
                != v@[b] by {
                if a < b {
                    assert(self.buffers@[a].spec_id() != self.buffers@[b].spec_id());
                } else {
                    assert(self.buffers@[b].spec_id() != self.buffers@[a].spec_id());
                }
            }
            assert forall|x: BufferId| v@.contains(x) <==> self.has(x) by {
                if v@.contains(x) {
                    let k = choose|k: int| 0 <= k < v@.len() && v@[k] == x;
                    assert(self.buffers@[k].spec_id() == x);
                }
                if self.has(x) {
                    let k = choose|k: int| 0 <= k < self.buffers@.len() && self.buffers@[k].spec_id() == x;
                    assert(v@[k] == x);
                }
            }
        }
        Ok(v)
    }

    /// The file of a buffer, if it has one.
    pub fn file_path(&self, buffer_id: BufferId) -> (r: Result<Option<&str>, String>)
        requires
            self.wf(),
        ensures
            !self.has(buffer_id) ==> (r matches Err(e) && e@ == not_found_msg()),
            self.has(buffer_id) ==> (r matches Ok(p) && match p {
                Some(s) => self.get(buffer_id).spec_path() == Some(s@),
                None => self.get(buffer_id).spec_path() is None,
            }),
    {
        let buffer = self.get_buffer(buffer_id)?;
        Ok(buffer.file_path())
    }

    /// Inserts text at a position of a buffer and announces the change.
    pub fn insert<H, S, C, R>(
        &mut self,
        reg: &mut Registry<H, S, C, R>,
        buffer_id: BufferId,
        position: BufferPosition,
        text: String,
        lock_token: Option<LockToken>,
    ) -> (r: Result<(), String>)
        requires
            old(self).wf(),
            old(self).has(buffer_id) ==> old(self).get(buffer_id).head() + 1 < usize::MAX,
            old(self).has(buffer_id) ==> (position_byte(old(self).get(buffer_id).text(), position) matches Some(b)
                ==> char_boundary(old(self).get(buffer_id).text(), b)),
            position.byte_col_idx + utf8_len(text@) <= usize::MAX,
        ensures
            insert_outcome(&*old(self), &*final(self), *old(reg), *final(reg), buffer_id, position,
                text@, lock_token, r),
    {
        let i = match self.slot(buffer_id) {
            Some(i) => i,
            None => return Err("buffer not found".to_owned()),
        };
        proof {
            self.lemma_get_wf(buffer_id);
        }
        match self.buffers[i].convert_position(position) {
            Ok(_) => {},
            Err(e) => return Err(e),
        }
        if !self.buffers[i].allows(lock_token) {
            return Err("this buffer is locked".to_owned());
        }
        let ghost before = *self;
        let _ = self.buffers[i].insert_text(position, text.as_str(), lock_token);
        proof {
            BufferPlugin::lemma_update(&before, &*self, i as int, self.buffers@[i as int]);
        }
        let n = str_len_bytes(text.as_str());
        let end_position = BufferPosition {
            line_idx: position.line_idx,
            byte_col_idx: position.byte_col_idx + n,
        };
        let change = BufferChange::Insert { buffer_id, start_position: position, end_position };
        broadcast(reg, "buffer_changed", change.to_value());
        Ok(())
    }

    /// Removes the text between two positions of a buffer, announces the
    /// change and returns the text.
    pub fn remove<H, S, C, R>(
        &mut self,
        reg: &mut Registry<H, S, C, R>,
        buffer_id: BufferId,
        start_position: BufferPosition,
        end_position: BufferPosition,
        lock_token: Option<LockToken>,
    ) -> (r: Result<String, String>)
        requires
            old(self).wf(),
            old(self).has(buffer_id) ==> {
                let t = old(self).get(buffer_id).text();
                &&& old(self).get(buffer_id).head() + 1 < usize::MAX
                &&& position_byte(t, start_position) matches Some(sb) ==> char_boundary(t, sb)
                &&& position_byte(t, end_position) matches Some(eb) ==> char_boundary(t, eb)
                &&& position_byte(t, start_position) matches Some(sb) ==> (position_byte(
                    t,
                    end_position,
                ) matches Some(eb) ==> sb <= eb)
            },
        ensures
            remove_outcome(&*old(self), &*final(self), *old(reg), *final(reg), buffer_id,
                start_position, end_position, lock_token, r),
    {
        let i = match self.slot(buffer_id) {
            Some(i) => i,
            None => return Err("buffer not found".to_owned()),
        };
        proof {
            self.lemma_get_wf(buffer_id);
        }
        match self.buffers[i].convert_position(start_position) {
            Ok(_) => {},
            Err(e) => return Err(e),
        }
        match self.buffers[i].convert_position(end_position) {
            Ok(_) => {},
            Err(e) => return Err(e),
        }
        if !self.buffers[i].allows(lock_token) {
            return Err("this buffer is locked".to_owned());
        }
        let ghost before = *self;
        let res = self.buffers[i].remove_text(start_position, end_position, lock_token);
        proof {
            BufferPlugin::lemma_update(&before, &*self, i as int, self.buffers@[i as int]);
        }
        let removed = match res {
            Ok(s) => s,
            Err(e) => return Err(e),
        };
        let change = BufferChange::Remove {
            buffer_id,
            position: start_position,
            text: removed.clone(),
        };
        broadcast(reg, "buffer_changed", change.to_value());
        Ok(removed)
    }

    /// Shows the snapshot before the shown one, if any, and announces it.
    pub fn undo<H, S, C, R>(&mut self, reg: &mut Registry<H, S, C, R>, buffer_id: BufferId) -> (r:
        Result<(), String>)
        requires
            old(self).wf(),
        ensures
            history_outcome(&*old(self), &*final(self), *old(reg), *final(reg), buffer_id, false, r),
    {
        let i = match self.slot(buffer_id) {
            Some(i) => i,
            None => return Err("buffer not found".to_owned()),
        };
        proof {
            self.lemma_get_wf(buffer_id);
        }
        let ghost before = *self;
        self.buffers[i].undo();
        proof {
            BufferPlugin::lemma_update(&before, &*self, i as int, self.buffers@[i as int]);
        }
        broadcast(reg, "buffer_changed", BufferChange::Reset(buffer_id).to_value());
        Ok(())
    }

    /// Shows the snapshot after the shown one, if any, and announces it.
    pub fn redo<H, S, C, R>(&mut self, reg: &mut Registry<H, S, C, R>, buffer_id: BufferId) -> (r:
        Result<(), String>)
        requires
            old(self).wf(),
        ensures
            history_outcome(&*old(self), &*final(self), *old(reg), *final(reg), buffer_id, true, r),
    {
        let i = match self.slot(buffer_id) {
            Some(i) => i,
            None => return Err("buffer not found".to_owned()),
        };
        proof {
            self.lemma_get_wf(buffer_id);
        }
        let ghost before = *self;
        self.buffers[i].redo();
        proof {
            BufferPlugin::lemma_update(&before, &*self, i as int, self.buffers@[i as int]);
        }
        broadcast(reg, "buffer_changed", BufferChange::Reset(buffer_id).to_value());
        Ok(())
    }

    proof fn lemma_push(old: &Self, new: &Self, b: Buffer)
        requires
            old.wf(),
            !old.has(b.spec_id()),
            b.wf(),
            b.spec_id().0 < new.next_id,
            old.next_id <= new.next_id,
            new.buffers@ == old.buffers@.push(b),
        ensures
            new.wf(),
            forall|x: BufferId| #[trigger] new.has(x) == (old.has(x) || x == b.spec_id()),
            forall|x: BufferId| old.has(x) ==> #[trigger] new.get(x) == old.get(x),
            new.get(b.spec_id()) == b,
    {
        let n = old.buffers@.len() as int;
        assert forall|i: int, j: int| 0 <= i < j < new.buffers@.len() implies new.buffers@[i].spec_id()
            != new.buffers@[j].spec_id() by {
            if j == n {
                assert(old.buffers@[i].spec_id() == new.buffers@[i].spec_id());
            }
        }
        assert(new.wf());
        new.lemma_at(b.spec_id(), n);
        assert forall|x: BufferId| #[trigger] new.has(x) == (old.has(x) || x == b.spec_id()) by {
            if old.has(x) {
                let j = choose|j: int| 0 <= j < old.buffers@.len() && old.buffers@[j].spec_id() == x;
                assert(new.buffers@[j].spec_id() == x);
            }
            if new.has(x) && x != b.spec_id() {
                let j = choose|j: int| 0 <= j < new.buffers@.len() && new.buffers@[j].spec_id() == x;
                assert(old.buffers@[j].spec_id() == x);
            }
        }
        assert forall|x: BufferId| old.has(x) implies #[trigger] new.get(x) == old.get(x) by {
            let j = choose|j: int| 0 <= j < old.buffers@.len() && old.buffers@[j].spec_id() == x;
            old.lemma_at(x, j);
            new.lemma_at(x, j);
        }
    }

    /// Closes a buffer; a locked buffer stays open.
    pub fn close(&mut self, buffer_id: BufferId) -> (r: Result<(), String>)
        requires
            old(self).wf(),
        ensures
            !old(self).has(buffer_id) ==> (r matches Err(e) && e@ == not_found_msg()) && *final(self)
                == *old(self),
            old(self).has(buffer_id) && old(self).get(buffer_id).spec_lock() is Some ==> (r matches Err(
                e,
            ) && e@ == "this buffer is locked"@) && *final(self) == *old(self),
            old(self).has(buffer_id) && old(self).get(buffer_id).spec_lock() is None ==> {
                &&& r is Ok
                &&& final(self).wf()
                &&& final(self).spec_next_id() == old(self).spec_next_id()
                &&& forall|x: BufferId| #[trigger] final(self).has(x) == (old(self).has(x) && x
                    != buffer_id)
                &&& forall|x: BufferId| #[trigger] final(self).has(x) ==> final(self).get(x) == old(
                    self,
                ).get(x)
            },
    {
        let i = match self.slot(buffer_id) {
            Some(i) => i,
            None => return Err("buffer not found".to_owned()),
        };
        if self.buffers[i].is_locked() {
            return Err("this buffer is locked".to_owned());
        }
        let ghost before = *self;
        let _closed = self.buffers.remove(i);
        proof {
            let ii = i as int;
            assert forall|a: int, b: int| 0 <= a < b < self.buffers@.len() implies self.buffers@[a].spec_id()
                != self.buffers@[b].spec_id() by {
                let oa = if a < ii { a } else { a + 1 };
                let ob = if b < ii { b } else { b + 1 };
                assert(before.buffers@[oa].spec_id() != before.buffers@[ob].spec_id());
            }
            assert forall|k: int| 0 <= k < self.buffers@.len() implies (#[trigger] self.buffers@[k]).wf()
                && self.buffers@[k].spec_id().0 < self.next_id by {
                let ok = if k < ii { k } else { k + 1 };
                assert(before.buffers@[ok].wf());
            }
            assert(self.wf());
            assert forall|x: BufferId| #[trigger] self.has(x) == (before.has(x) && x != buffer_id) by {
                if before.has(x) && x != buffer_id {
                    let j = choose|j: int| 0 <= j < before.buffers@.len() && before.buffers@[j].spec_id() == x;
                    assert(j != ii);
                    let nj = if j < ii { j } else { j - 1 };
                    assert(self.buffers@[nj].spec_id() == x);
                }
                if self.has(x) {
                    let j = choose|j: int| 0 <= j < self.buffers@.len() && self.buffers@[j].spec_id() == x;
                    let oj = if j < ii { j } else { j + 1 };
                    assert(before.buffers@[oj].spec_id() == x);
                    before.lemma_at(buffer_id, ii);
                    if x == buffer_id {
                        if oj < ii {
                            assert(before.buffers@[oj].spec_id() != before.buffers@[ii].spec_id());
                        } else {
                            assert(before.buffers@[ii].spec_id() != before.buffers@[oj].spec_id());
                        }
                    }
                }
            }
            assert forall|x: BufferId| #[trigger] self.has(x) implies self.get(x) == before.get(x) by {
                let j = choose|j: int| 0 <= j < self.buffers@.len() && self.buffers@[j].spec_id() == x;
                let oj = if j < ii { j } else { j + 1 };
                self.lemma_at(x, j);
                before.lemma_at(x, oj);
            }
        }
        Ok(())
    }

    /// Where and what to write to save a buffer: its file and its text.
    pub fn save_contents(&self, buffer_id: BufferId) -> (r: Result<(String, String), String>)
        requires
            self.wf(),
        ensures
            !self.has(buffer_id) ==> (r matches Err(e) && e@ == not_found_msg()),
            self.has(buffer_id) ==> {
                let b = self.get(buffer_id);
                &&& b.spec_lock() is Some ==> (r matches Err(e) && e@ == "buffer is locked"@)
                &&& b.spec_lock() is None && b.spec_path() is None ==> (r matches Err(e) && e@
                    == "no file name"@)
                &&& b.spec_lock() is None && b.spec_path() is Some ==> (r matches Ok((p, text))
                    && b.spec_path() == Some(p@) && text@ == b.text())
            },
    {
        let buffer = self.get_buffer(buffer_id)?;
        proof {
            self.lemma_get_wf(buffer_id);
        }
        let path = buffer.save_path()?;
        let n = crate::rope::rope_len_chars(buffer.rope());
        let text = crate::rope::rope_slice_string(buffer.rope(), 0, n);
        assert(buffer.text().subrange(0, n as int) =~= buffer.text());
        Ok((path, text))
    }

    /// Records that a buffer was written to its file and announces it.
    pub fn saved<H, S, C, R>(&mut self, reg: &mut Registry<H, S, C, R>, buffer_id: BufferId) -> (r:
        Result<(), String>)
        requires
            old(self).wf(),
        ensures
            !old(self).has(buffer_id) ==> (r matches Err(e) && e@ == not_found_msg())
                && *final(self) == *old(self) && *final(reg) == *old(reg),
            old(self).has(buffer_id) ==> {
                let b0 = old(self).get(buffer_id);
                let b1 = final(self).get(buffer_id);
                &&& r is Ok
                &&& old(self).same_but(&*final(self), buffer_id)
                &&& b1.wf() && !b1.spec_dirty() && b1.texts() == b0.texts() && b1.head() == b0.head()
                &&& b1.spec_id() == b0.spec_id() && b1.spec_path() == b0.spec_path()
                &&& b1.spec_lock() == b0.spec_lock()
                &&& broadcast_queued(*old(reg), *final(reg), "buffer_saved"@, buffer_id.value_model())
            },
    {
        let i = match self.slot(buffer_id) {
            Some(i) => i,
            None => return Err("buffer not found".to_owned()),
        };
        proof {
            self.lemma_get_wf(buffer_id);
        }
        let ghost before = *self;
        self.buffers[i].mark_saved();
        proof {
            BufferPlugin::lemma_update(&before, &*self, i as int, self.buffers@[i as int]);
        }
        broadcast(reg, "buffer_saved", buffer_id.to_value());
        Ok(())
    }

    /// Locks a buffer; see `Buffer::lock`.
    pub fn lock(&mut self, buffer_id: BufferId) -> (r: Result<LockToken, String>)
        requires
            old(self).wf(),
            old(self).has(buffer_id) ==> old(self).get(buffer_id).head() + 1 < usize::MAX,
        ensures
            lock_outcome(&*old(self), &*final(self), buffer_id, r),
    {
        let i = match self.slot(buffer_id) {
            Some(i) => i,
            None => return Err("buffer not found".to_owned()),
        };
        proof {
            self.lemma_get_wf(buffer_id);
        }
        if self.buffers[i].is_locked() {
            return Err("buffer is locked".to_owned());
        }
        let ghost before = *self;
        let r = self.buffers[i].lock();
        proof {
            BufferPlugin::lemma_update(&before, &*self, i as int, self.buffers@[i as int]);
        }
        r
    }

    /// Whether a buffer is locked.
    pub fn is_locked(&self, buffer_id: BufferId) -> (r: Result<bool, String>)
        requires
            self.wf(),
        ensures
            !self.has(buffer_id) ==> (r matches Err(e) && e@ == not_found_msg()),
            self.has(buffer_id) ==> r == Ok::<bool, String>(self.get(buffer_id).spec_lock() is Some),
    {
        let buffer = self.get_buffer(buffer_id)?;
        Ok(buffer.is_locked())
    }

    /// Unlocks a buffer with its token; see `Buffer::unlock`.
    pub fn unlock(&mut self, buffer_id: BufferId, key: LockToken) -> (r: Result<(), String>)
        requires
            old(self).wf(),
        ensures
            unlock_outcome(&*old(self), &*final(self), buffer_id, key, r),
    {
        let i = match self.slot(buffer_id) {
            Some(i) => i,
            None => return Err("buffer not found".to_owned()),
        };
        proof {
            self.lemma_get_wf(buffer_id);
        }
        let ghost before = *self;
        let r = self.buffers[i].unlock(key);
        proof {
            BufferPlugin::lemma_update(&before, &*self, i as int, self.buffers@[i as int]);
        }
        r
    }

    /// Opens an empty buffer under the next id.
    pub fn create(&mut self) -> (r: Result<BufferId, String>)
        requires
            old(self).wf(),
            old(self).spec_next_id() < usize::MAX,
        ensures
            r matches Ok(id) && {
                let b = final(self).get(id);
                &&& id.0 == old(self).spec_next_id()
                &&& final(self).wf()
                &&& final(self).spec_next_id() == old(self).spec_next_id() + 1
                &&& forall|x: BufferId| #[trigger] final(self).has(x) == (old(self).has(x) || x == id)
                &&& forall|x: BufferId| old(self).has(x) ==> #[trigger] final(self).get(x) == old(
                    self,
                ).get(x)
                &&& b.wf() && b.texts() == seq![Seq::<char>::empty()] && b.head() == 0
                &&& b.spec_id() == id && b.spec_path() is None && !b.spec_dirty() && b.spec_lock() is None
            },
    {
        let id = self.reserve_id();
        let ghost before = *self;
        let buffer = Buffer::new(id);
        self.buffers.push(buffer);
        proof {
            BufferPlugin::lemma_push(&before, &*self, buffer);
        }
        Ok(id)
    }

    /// Takes the next id.
    pub fn reserve_id(&mut self) -> (id: BufferId)
        requires
            old(self).wf(),
            old(self).spec_next_id() < usize::MAX,
        ensures
            id.0 == old(self).spec_next_id(),
            !old(self).has(id),
            final(self).spec_next_id() == old(self).spec_next_id() + 1,
            final(self).wf(),
            forall|x: BufferId| #[trigger] final(self).has(x) == old(self).has(x),
            forall|x: BufferId| old(self).has(x) ==> #[trigger] final(self).get(x) == old(self).get(x),
    {
        let id = BufferId(self.next_id);
        proof {
            if self.has(id) {
                self.lemma_get_wf(id);
            }
        }
        self.next_id = self.next_id + 1;
        id
    }

    /// The open buffer whose file is `path`, if any.
    pub fn find_path(&self, path: &str) -> (r: Option<BufferId>)
        requires
            self.wf(),
        ensures
            match r {
                Some(id) => self.has(id) && self.get(id).spec_path() == Some(path@),
                None => forall|x: BufferId| self.has(x) ==> self.get(x).spec_path() != Some(path@),
            },
    {
        let mut i: usize = 0;
        while i < self.buffers.len()
            invariant
                self.wf(),
                i <= self.buffers@.len(),
                forall|j: int| 0 <= j < i ==> #[trigger] self.buffers@[j].spec_path() != Some(path@),
            decreases self.buffers@.len() - i,
        {
            match self.buffers[i].file_path() {
                Some(p) => {
                    if crate::text::str_eq(p, path) {
                        proof {
                            self.lemma_at(self.buffers@[i as int].spec_id(), i as int);
                        }
                        return Some(self.buffers[i].id());
                    }
                },
                None => {},
            }
            i = i + 1;
        }
        proof {
            assert forall|x: BufferId| self.has(x) implies self.get(x).spec_path() != Some(path@) by {
                let j = choose|j: int| 0 <= j < self.buffers@.len() && self.buffers@[j].spec_id() == x;
                self.lemma_at(x, j);
            }
        }
        None
    }

    /// Opens a buffer holding the contents of the file at `path`, under an id
    /// taken with `reserve_id`.
    pub fn add_opened(&mut self, id: BufferId, path: String, contents: &str)
        requires
            old(self).wf(),
            !old(self).has(id),
            id.0 < old(self).spec_next_id(),
        ensures
            final(self).wf(),
            final(self).spec_next_id() == old(self).spec_next_id(),
            forall|x: BufferId| #[trigger] final(self).has(x) == (old(self).has(x) || x == id),
            forall|x: BufferId| old(self).has(x) ==> #[trigger] final(self).get(x) == old(self).get(x),
            ({
                let b = final(self).get(id);
                &&& b.wf() && b.texts() == seq![contents@] && b.head() == 0
                &&& b.spec_id() == id && b.spec_path() == Some(path@) && !b.spec_dirty()
                &&& b.spec_lock() is None
            }),
    {
        let ghost before = *self;
        let buffer = Buffer::from_file_contents(id, path, contents);
        self.buffers.push(buffer);
        proof {
            BufferPlugin::lemma_push(&before, &*self, buffer);
        }
    }
}

/// Each line break adds to the count: the count does not shrink.
pub proof fn lemma_breaks_mono(t: Seq<char>, a: int, b: int)
    requires
        a <= b,
    ensures
        breaks_upto(t, a) <= breaks_upto(t, b),
    decreases b - a,
{
    if a < b {
        lemma_breaks_mono(t, a, b - 1);
    }
}

/// The line that holds character `c` starts at or before it.
pub proof fn lemma_line_start_of(t: Seq<char>, c: int)
    requires
        0 <= c <= t.len(),
    ensures
        crate::rope::line_start(t, breaks_upto(t, c) as int) <= c,
{
    let l = breaks_upto(t, c) as int;
    lemma_breaks_mono(t, c, t.len() as int);
    if 1 <= l {
        crate::buffer::lemma_break_exists(t, t.len() as int, l);
        let i = choose|i: int| crate::rope::break_ends_at(t, i) && breaks_upto(t, i) == l;
        if i > c {
            lemma_breaks_mono(t, c, i - 1);
        }
    }
}

/// Undo right after an insertion into an unlocked buffer shows the text from
/// before the insertion again; the other buffers stay as they were.
pub proof fn law_undo_after_insert<H, S, C, R>(
    p0: BufferPlugin,
    p1: BufferPlugin,
    p2: BufferPlugin,
    g0: Registry<H, S, C, R>,
    g1: Registry<H, S, C, R>,
    g2: Registry<H, S, C, R>,
    id: BufferId,
    position: BufferPosition,
    text: Seq<char>,
    r1: Result<(), String>,
    r2: Result<(), String>,
)
    requires
        p0.wf(),
        p0.has(id),
        p0.get(id).spec_lock() is None,
        insert_outcome(&p0, &p1, g0, g1, id, position, text, None, r1),
        r1 is Ok,
        history_outcome(&p1, &p2, g1, g2, id, false, r2),
    ensures
        p2.has(id),
        p2.get(id).text() == p0.get(id).text(),
        forall|x: BufferId| x != id && p0.has(x) ==> #[trigger] p2.get(x) == p0.get(x),
{
    let b0 = p0.get(id);
    let t = b0.text();
    let b = position_byte(t, position)->0;
    let t1 = splice(t, chars_within(t, b) as int, chars_within(t, b) as int, text);
    assert(p1.has(id));
    law_undo_after_edit(b0, p1.get(id), p2.get(id), t1);
}

/// Undo right after a removal from an unlocked buffer shows the text from
/// before the removal again; the other buffers stay as they were.
pub proof fn law_undo_after_remove<H, S, C, R>(
    p0: BufferPlugin,
    p1: BufferPlugin,
    p2: BufferPlugin,
    g0: Registry<H, S, C, R>,
    g1: Registry<H, S, C, R>,
    g2: Registry<H, S, C, R>,
    id: BufferId,
    start: BufferPosition,
    end: BufferPosition,
    r1: Result<String, String>,
    r2: Result<(), String>,
)
    requires
        p0.wf(),
        p0.has(id),
        p0.get(id).spec_lock() is None,
        remove_outcome(&p0, &p1, g0, g1, id, start, end, None, r1),
        r1 is Ok,
        history_outcome(&p1, &p2, g1, g2, id, false, r2),
    ensures
        p2.has(id),
        p2.get(id).text() == p0.get(id).text(),
        forall|x: BufferId| x != id && p0.has(x) ==> #[trigger] p2.get(x) == p0.get(x),
{
    let b0 = p0.get(id);
    let t = b0.text();
    let sc = chars_within(t, position_byte(t, start)->0) as int;
    let ec = chars_within(t, position_byte(t, end)->0) as int;
    assert(p1.has(id));
    law_undo_after_edit(b0, p1.get(id), p2.get(id), splice(t, sc, ec, Seq::empty()));
}

/// Inserting the text that a removal returned, at the removal's start and
/// with the same key, succeeds and gives back the buffer's text from before
/// the removal; the other buffers stay as they were. This holds unless the
/// removal brought a carriage return next to a line feed, which then make
/// one line break and shift the lines after them.
pub proof fn law_insert_after_remove_restores<H, S, C, R>(
    p0: BufferPlugin,
    p1: BufferPlugin,
    p2: BufferPlugin,
    g0: Registry<H, S, C, R>,
    g1: Registry<H, S, C, R>,
    g2: Registry<H, S, C, R>,
    id: BufferId,
    start: BufferPosition,
    end: BufferPosition,
    key: Option<LockToken>,
    removed: String,
    r2: Result<(), String>,
)
    requires
        p0.wf(),
        p0.has(id),
        ({
            let t = p0.get(id).text();
            &&& position_byte(t, start) matches Some(sb)
            &&& position_byte(t, end) matches Some(eb)
            &&& char_boundary(t, sb)
            &&& char_boundary(t, eb)
            &&& sb <= eb
            &&& !joins_line_break(t, chars_within(t, sb) as int, chars_within(t, eb) as int)
        }),
        remove_outcome(&p0, &p1, g0, g1, id, start, end, key, Ok(removed)),
        insert_outcome(&p1, &p2, g1, g2, id, start, removed@, key, r2),
    ensures
        r2 is Ok,
        p2.has(id),
        p2.get(id).text() == p0.get(id).text(),
        forall|x: BufferId| x != id && p0.has(x) ==> #[trigger] p2.get(x) == p0.get(x),
{
    let t = p0.get(id).text();
    let sb = position_byte(t, start)->0;
    let eb = position_byte(t, end)->0;
    let sc = chars_within(t, sb) as int;
    let ec = chars_within(t, eb) as int;
    let ks = choose|k: int| 0 <= k <= t.len() && utf8_len(t.take(k)) == sb;
    let ke = choose|k: int| 0 <= k <= t.len() && utf8_len(t.take(k)) == eb;
    lemma_chars_within_boundary(t, ks);
    lemma_chars_within_boundary(t, ke);
    lemma_chars_within_mono(t, sb, eb);
    let u = splice(t, sc, ec, Seq::empty());
    p0.lemma_get_wf(id);
    assert(p1.has(id));
    let b1 = p1.get(id);
    lemma_edited_text(p0.get(id), b1, u);
    p1.lemma_get_wf(id);
    lemma_position_kept(t, sc, ec, start);
    assert(u.take(sc) =~= t.take(sc));
    lemma_chars_within_boundary(u, sc);
    law_insert_after_remove(t, sc, ec);
    assert(p2.has(id));
    lemma_edited_text(b1, p2.get(id), splice(u, sc, sc, removed@));
}

} // verus!
