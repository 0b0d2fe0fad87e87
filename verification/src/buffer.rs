use ropey::Rope;
use vstd::prelude::*;

use crate::data::id::BufferId;
use crate::data::{BufferPosition, LockToken};
use crate::rope::{
    break_ends_at, breaks_upto, chars_within, line_count, line_start, line_text, rope_byte_to_char,
    rope_byte_to_line, rope_clone, rope_from_str, rope_insert, rope_len_bytes, rope_len_lines,
    rope_len_chars, rope_line_string, rope_line_to_byte, rope_new, rope_remove, rope_slice_string,
    rope_text,
};
use crate::text::{
    char_boundary, char_index_at, lemma_trim_newlines_prefix, str_chars, lemma_utf8_len_append, lemma_utf8_len_mono,
    lemma_utf8_len_prefix, trim_newlines, utf8_len,
};

verus! {

/// A fresh random number.
#[verifier::external_body]
fn random_u64() -> u64 {
    fastrand::u64(..)
}

/// A text buffer with its edit history. The history holds one snapshot per
/// edit; `head` is the snapshot shown. While a lock is held, only the holder
/// of its token may edit, and its edits go to one snapshot.
pub struct Buffer {
    history: Vec<Rope>,
    head: usize,
    file_path: Option<String>,
    dirty: bool,
    id: BufferId,
    lock_holder: Option<LockToken>,
}

/// What `Buffer::lock` does: a locked buffer refuses and stays as it was;
/// an unlocked one takes a new lock, whose token it gives, and a snapshot
/// of the text shown for the edits under the lock.
pub open spec fn buffer_locked(old: Buffer, new: Buffer, r: Result<LockToken, String>) -> bool {
    &&& new.spec_id() == old.spec_id()
    &&& new.spec_path() == old.spec_path()
    &&& new.spec_dirty() == old.spec_dirty()
    &&& old.spec_lock() is Some ==> (r matches Err(e) && e@ == "buffer is locked"@) && new.texts() == old.texts()
        && new.head() == old.head() && new.spec_lock() == old.spec_lock()
    &&& old.spec_lock() is None ==> (r matches Ok(t) && new.spec_lock() == Some(t)) && new.texts()
        == old.texts().take(old.head() + 1).push(old.text()) && new.head() == old.head() + 1
}

/// What `Buffer::unlock` with `key` does: the lock's own token releases it;
/// another token, or a buffer that is not locked, is refused. The texts stay.
pub open spec fn buffer_unlocked(old: Buffer, new: Buffer, key: LockToken, r: Result<(), String>) -> bool {
    &&& new.texts() == old.texts()
    &&& new.head() == old.head()
    &&& new.spec_id() == old.spec_id()
    &&& new.spec_path() == old.spec_path()
    &&& new.spec_dirty() == old.spec_dirty()
    &&& match old.spec_lock() {
        None => (r matches Err(e) && e@ == "buffer is not locked"@) && new.spec_lock() is None,
        Some(lock) => if lock == key {
            r is Ok && new.spec_lock() is None
        } else {
            (r matches Err(e) && e@ == "invalid key"@) && new.spec_lock() == old.spec_lock()
        },
    }
}

/// A lock taken on an unlocked buffer is released by its token and only by
/// it: unlocking with the token succeeds and leaves the buffer unlocked;
/// with another key it fails with "invalid key" and the buffer stays
/// locked. The text shown is the same throughout.
pub proof fn law_unlock_after_lock(
    b0: Buffer,
    b1: Buffer,
    b2: Buffer,
    token: LockToken,
    key: LockToken,
    r: Result<(), String>,
)
    requires
        b0.wf(),
        b0.spec_lock() is None,
        buffer_locked(b0, b1, Ok(token)),
        buffer_unlocked(b1, b2, key, r),
    ensures
        r is Ok <==> key == token,
        key == token ==> b2.spec_lock() is None,
        key != token ==> (r matches Err(e) && e@ == "invalid key"@) && b2.spec_lock() == Some(token),
        b2.text() == b0.text(),
{
}

impl Buffer {
    /// The texts of the snapshots, oldest first.
    pub closed spec fn texts(&self) -> Seq<Seq<char>> {
        self.history@.map_values(|r: Rope| rope_text(r))
    }

    /// The position of the snapshot shown.
    pub closed spec fn head(&self) -> int {
        self.head as int
    }

    /// The text shown.
    pub open spec fn text(&self) -> Seq<char> {
        self.texts()[self.head()]
    }

    pub closed spec fn spec_id(&self) -> BufferId {
        self.id
    }

    pub closed spec fn spec_dirty(&self) -> bool {
        self.dirty
    }

    pub closed spec fn spec_lock(&self) -> Option<LockToken> {
        self.lock_holder
    }

    pub closed spec fn spec_path(&self) -> Option<Seq<char>> {
        match self.file_path {
            Some(p) => Some(p@),
            None => None,
        }
    }

    /// The shown snapshot exists.
    pub closed spec fn wf(&self) -> bool {
        self.head < self.history@.len()
    }

    /// An empty buffer without a file.
    pub fn new(id: BufferId) -> (b: Self)
        ensures
            b.wf(),
            b.texts() == seq![Seq::<char>::empty()],
            b.head() == 0,
            b.spec_path() is None,
            !b.spec_dirty(),
            b.spec_id() == id,
            b.spec_lock() is None,
    {
        let mut history: Vec<Rope> = Vec::new();
        history.push(rope_new());
        let b = Buffer { history, head: 0, file_path: None, dirty: false, id, lock_holder: None };
        assert(b.texts() =~= seq![Seq::<char>::empty()]);
        b
    }

    /// A buffer holding the contents of the file at `path`.
    pub fn from_file_contents(id: BufferId, path: String, contents: &str) -> (b: Self)
        ensures
            b.wf(),
            b.texts() == seq![contents@],
            b.head() == 0,
            b.spec_path() == Some(path@),
            !b.spec_dirty(),
            b.spec_id() == id,
            b.spec_lock() is None,
    {
        let mut history: Vec<Rope> = Vec::new();
        history.push(rope_from_str(contents));
        let b = Buffer { history, head: 0, file_path: Some(path), dirty: false, id, lock_holder: None };
        assert(b.texts() =~= seq![contents@]);
        b
    }

    /// Where the buffer is to be saved: refused while locked or without a file.
    pub fn save_path(&self) -> (r: Result<String, String>)
        ensures
            self.spec_lock() is Some ==> (r matches Err(e) && e@ == "buffer is locked"@),
            self.spec_lock() is None && self.spec_path() is None ==> (r matches Err(e) && e@
                == "no file name"@),
            self.spec_lock() is None && self.spec_path() is Some ==> (r matches Ok(p) && Some(p@)
                == self.spec_path()),
    {
        if self.is_locked() {
            return Err("buffer is locked".to_owned());
        }
        match &self.file_path {
            Some(p) => Ok(p.clone()),
            None => Err("no file name".to_owned()),
        }
    }

    /// Records that the buffer was written to its file.
    pub fn mark_saved(&mut self)
        ensures
            !final(self).spec_dirty(),
            final(self).wf() == old(self).wf(),
            final(self).texts() == old(self).texts(),
            final(self).head() == old(self).head(),
            final(self).spec_path() == old(self).spec_path(),
            final(self).spec_id() == old(self).spec_id(),
            final(self).spec_lock() == old(self).spec_lock(),
    {
        self.dirty = false;
    }

    /// The text shown.
    pub fn rope(&self) -> (r: &Rope)
        requires
            self.wf(),
        ensures
            rope_text(*r) == self.text(),
    {
        &self.history[self.head]
    }

    /// Whether one more snapshot can be recorded after the shown one.
    pub fn history_has_room(&self) -> (r: bool)
        ensures
            r == (self.head() + 1 < usize::MAX),
    {
        self.head < usize::MAX - 1
    }

    /// Whether byte `b` of the text shown falls between two characters.
    pub fn is_char_boundary(&self, b: usize) -> (r: bool)
        requires
            self.wf(),
        ensures
            r == char_boundary(self.text(), b as int),
    {
        let rope = self.rope();
        let _ = rope_len_bytes(rope);
        let n = rope_len_chars(rope);
        let s = rope_slice_string(rope, 0, n);
        let cs = str_chars(s.as_str());
        assert(cs@ =~= self.text());
        char_index_at(&cs, b).is_some()
    }

    /// Opens an edit. Without a lock, the edit gets a new snapshot, copied from
    /// the shown one, and the snapshots after the shown one are dropped. Under
    /// a lock, only the lock's token opens an edit, on the shown snapshot.
    pub fn rope_mut(&mut self, key: Option<LockToken>) -> (ok: bool)
        requires
            old(self).wf(),
            old(self).head() + 1 < usize::MAX,
        ensures
            final(self).wf(),
            final(self).spec_id() == old(self).spec_id(),
            final(self).spec_path() == old(self).spec_path(),
            final(self).spec_lock() == old(self).spec_lock(),
            match old(self).spec_lock() {
                Some(lock) => if key == Some(lock) {
                    ok && final(self).spec_dirty() && final(self).texts() == old(self).texts()
                        && final(self).head() == old(self).head()
                } else {
                    !ok && *final(self) == *old(self)
                },
                None => ok && final(self).spec_dirty() && final(self).texts() == old(self).texts().take(
                    old(self).head() + 1,
                ).push(old(self).text()) && final(self).head() == old(self).head() + 1,
            },
    {
        match self.lock_holder {
            Some(lock) => {
                match key {
                    Some(k) => {
                        if k != lock {
                            return false;
                        }
                    },
                    None => return false,
                }
            },
            None => {
                self.history.truncate(self.head + 1);
                let copy = rope_clone(&self.history[self.head]);
                self.history.push(copy);
                self.head = self.head + 1;
                assert(self.texts() =~= old(self).texts().take(old(self).head() + 1).push(old(self).text()));
            },
        }
        self.dirty = true;
        true
    }

    /// Replaces the shown snapshot's text by inserting at a character position.
    fn insert_at(&mut self, char_idx: usize, text: &str)
        requires
            old(self).wf(),
            char_idx <= old(self).text().len(),
        ensures
            final(self).wf(),
            final(self).texts() == old(self).texts().update(
                old(self).head(),
                old(self).text().take(char_idx as int) + text@ + old(self).text().skip(char_idx as int),
            ),
            final(self).head() == old(self).head(),
            final(self).spec_id() == old(self).spec_id(),
            final(self).spec_path() == old(self).spec_path(),
            final(self).spec_lock() == old(self).spec_lock(),
            final(self).spec_dirty() == old(self).spec_dirty(),
    {
        let mut r = rope_clone(&self.history[self.head]);
        rope_insert(&mut r, char_idx, text);
        self.history.set(self.head, r);
        assert(self.texts() =~= old(self).texts().update(
            old(self).head(),
            old(self).text().take(char_idx as int) + text@ + old(self).text().skip(char_idx as int),
        ));
    }

    /// Replaces the shown snapshot's text by removing between character positions.
    fn remove_range(&mut self, start: usize, end: usize)
        requires
            old(self).wf(),
            start <= end <= old(self).text().len(),
        ensures
            final(self).wf(),
            final(self).texts() == old(self).texts().update(
                old(self).head(),
                old(self).text().take(start as int) + old(self).text().skip(end as int),
            ),
            final(self).head() == old(self).head(),
            final(self).spec_id() == old(self).spec_id(),
            final(self).spec_path() == old(self).spec_path(),
            final(self).spec_lock() == old(self).spec_lock(),
            final(self).spec_dirty() == old(self).spec_dirty(),
    {
        let mut r = rope_clone(&self.history[self.head]);
        rope_remove(&mut r, start, end);
        self.history.set(self.head, r);
        assert(self.texts() =~= old(self).texts().update(
            old(self).head(),
            old(self).text().take(start as int) + old(self).text().skip(end as int),
        ));
    }

    /// Refuses a line index past the one after the last line.
    pub fn check_line_idx(&self, line_idx: usize) -> (r: Result<(), String>)
        requires
            self.wf(),
        ensures
            line_idx <= line_count(self.text()) ==> r is Ok,
            line_idx > line_count(self.text()) ==> (r matches Err(e) && e@ == "line_idx is out of range"@),
    {
        if rope_len_lines(self.rope()) < line_idx {
            return Err("line_idx is out of range".to_owned());
        }
        Ok(())
    }

    /// Refuses a byte index past the end.
    pub fn check_byte_idx(&self, byte_idx: usize) -> (r: Result<(), String>)
        requires
            self.wf(),
        ensures
            byte_idx <= utf8_len(self.text()) ==> r is Ok,
            byte_idx > utf8_len(self.text()) ==> (r matches Err(e) && e@ == "byte_idx is out of range"@),
    {
        if rope_len_bytes(self.rope()) < byte_idx {
            return Err("byte_idx is out of range".to_owned());
        }
        Ok(())
    }

    /// The byte index of a position: the start of its line plus its column.
    pub fn convert_position(&self, position: BufferPosition) -> (r: Result<usize, String>)
        requires
            self.wf(),
        ensures
            match position_byte(self.text(), position) {
                Some(b) => r matches Ok(x) && x == b,
                None => r matches Err(e) && e@ == position_error(self.text(), position),
            },
    {
        match self.check_line_idx(position.line_idx) {
            Ok(()) => {},
            Err(e) => return Err(e),
        }
        let start = rope_line_to_byte(self.rope(), position.line_idx);
        proof {
            lemma_line_byte_bound(self.text(), position.line_idx as int);
        }
        let len = rope_len_bytes(self.rope());
        if position.byte_col_idx > len - start {
            return Err("byte_idx is out of range".to_owned());
        }
        Ok(start + position.byte_col_idx)
    }

    /// Whether an edit opened with `key` goes through.
    pub open spec fn edit_allowed(&self, key: Option<LockToken>) -> bool {
        match self.spec_lock() {
            Some(lock) => key == Some(lock),
            None => true,
        }
    }

    /// Whether an edit opened with `key` goes through.
    pub fn allows(&self, key: Option<LockToken>) -> (r: bool)
        ensures
            r == self.edit_allowed(key),
    {
        match self.lock_holder {
            Some(lock) => match key {
                Some(k) => k == lock,
                None => false,
            },
            None => true,
        }
    }

    /// Inserts text at a position. An edit opens as `rope_mut` says; a
    /// position out of range and a lock that the key does not open are refused.
    pub fn insert_text(&mut self, position: BufferPosition, text: &str, key: Option<LockToken>) -> (r:
        Result<(), String>)
        requires
            old(self).wf(),
            old(self).head() + 1 < usize::MAX,
            position_byte(old(self).text(), position) matches Some(b) ==> char_boundary(
                old(self).text(),
                b,
            ),
        ensures
            match position_byte(old(self).text(), position) {
                None => (r matches Err(e) && e@ == position_error(old(self).text(), position))
                    && *final(self) == *old(self),
                Some(b) => if old(self).edit_allowed(key) {
                    r is Ok && edited(
                        *old(self),
                        *final(self),
                        splice(old(self).text(), chars_within(old(self).text(), b) as int,
                            chars_within(old(self).text(), b) as int, text@),
                    )
                } else {
                    (r matches Err(e) && e@ == "this buffer is locked"@) && *final(self) == *old(self)
                },
            },
    {
        let byte_idx = match self.convert_position(position) {
            Ok(b) => b,
            Err(e) => return Err(e),
        };
        let char_idx = rope_byte_to_char(self.rope(), byte_idx);
        proof {
            lemma_chars_within_bound(self.text(), byte_idx as int);
        }
        let ghost before = *self;
        if !self.rope_mut(key) {
            return Err("this buffer is locked".to_owned());
        }
        self.insert_at(char_idx, text);
        proof {
            let t = before.text();
            let n = splice(t, char_idx as int, char_idx as int, text@);
            assert(t.take(char_idx as int) + text@ + t.skip(char_idx as int) =~= n);
            if before.spec_lock() is None {
                assert(self.texts() =~= before.texts().take(before.head() + 1).push(n));
            }
        }
        Ok(())
    }

    /// Removes the text between two positions and returns it. An edit opens as
    /// `rope_mut` says; a position out of range and a lock that the key does
    /// not open are refused.
    pub fn remove_text(
        &mut self,
        start: BufferPosition,
        end: BufferPosition,
        key: Option<LockToken>,
    ) -> (r: Result<String, String>)
        requires
            old(self).wf(),
            old(self).head() + 1 < usize::MAX,
            position_byte(old(self).text(), start) matches Some(sb) ==> char_boundary(
                old(self).text(),
                sb,
            ),
            position_byte(old(self).text(), end) matches Some(eb) ==> char_boundary(
                old(self).text(),
                eb,
            ),
            position_byte(old(self).text(), start) matches Some(sb) ==> (position_byte(
                old(self).text(),
                end,
            ) matches Some(eb) ==> sb <= eb),
        ensures
            ({
                let t = old(self).text();
                match (position_byte(t, start), position_byte(t, end)) {
                    (None, _) => (r matches Err(e) && e@ == position_error(t, start)) && *final(self)
                        == *old(self),
                    (Some(_), None) => (r matches Err(e) && e@ == position_error(t, end))
                        && *final(self) == *old(self),
                    (Some(sb), Some(eb)) => {
                        let sc = chars_within(t, sb) as int;
                        let ec = chars_within(t, eb) as int;
                        if old(self).edit_allowed(key) {
                            (r matches Ok(removed) && removed@ == t.subrange(sc, ec)) && edited(
                                *old(self),
                                *final(self),
                                splice(t, sc, ec, Seq::empty()),
                            )
                        } else {
                            (r matches Err(e) && e@ == "this buffer is locked"@) && *final(self)
                                == *old(self)
                        }
                    },
                }
            }),
    {
        let start_byte = match self.convert_position(start) {
            Ok(b) => b,
            Err(e) => return Err(e),
        };
        let end_byte = match self.convert_position(end) {
            Ok(b) => b,
            Err(e) => return Err(e),
        };
        let start_char = rope_byte_to_char(self.rope(), start_byte);
        let end_char = rope_byte_to_char(self.rope(), end_byte);
        proof {
            lemma_chars_within_bound(self.text(), end_byte as int);
            lemma_chars_within_mono(self.text(), start_byte as int, end_byte as int);
        }
        let removed = rope_slice_string(self.rope(), start_char, end_char);
        let ghost before = *self;
        if !self.rope_mut(key) {
            return Err("this buffer is locked".to_owned());
        }
        self.remove_range(start_char, end_char);
        proof {
            let t = before.text();
            let n = splice(t, start_char as int, end_char as int, Seq::empty());
            assert(t.take(start_char as int) + t.skip(end_char as int) =~= n);
            if before.spec_lock() is None {
                assert(self.texts() =~= before.texts().take(before.head() + 1).push(n));
            }
        }
        Ok(removed)
    }

    pub fn id(&self) -> (r: BufferId)
        ensures
            r == self.spec_id(),
    {
        self.id
    }

    pub fn file_path(&self) -> (r: Option<&str>)
        ensures
            match r {
                Some(p) => self.spec_path() == Some(p@),
                None => self.spec_path() is None,
            },
    {
        match &self.file_path {
            Some(p) => Some(p.as_str()),
            None => None,
        }
    }

    pub fn is_dirty(&self) -> (r: bool)
        ensures
            r == self.spec_dirty(),
    {
        self.dirty
    }

    /// Takes the lock with a fresh random token. Edits made under the lock go to
    /// one new snapshot, copied from the shown one.
    pub fn lock(&mut self) -> (r: Result<LockToken, String>)
        requires
            old(self).wf(),
            old(self).head() + 1 < usize::MAX,
        ensures
            final(self).wf(),
            buffer_locked(*old(self), *final(self), r),
    {
        if self.lock_holder.is_some() {
            return Err("buffer is locked".to_owned());
        }
        let token = LockToken(random_u64());
        self.lock_holder = Some(token);
        self.history.truncate(self.head + 1);
        let copy = rope_clone(&self.history[self.head]);
        self.history.push(copy);
        self.head = self.head + 1;
        assert(self.texts() =~= old(self).texts().take(old(self).head() + 1).push(old(self).text()));
        Ok(token)
    }

    pub fn is_locked(&self) -> (r: bool)
        ensures
            r == self.spec_lock() is Some,
    {
        self.lock_holder.is_some()
    }

    /// The token of the lock, while the buffer is locked.
    pub fn lock_holder(&self) -> (r: Option<LockToken>)
        ensures
            r == self.spec_lock(),
    {
        self.lock_holder
    }

    /// Releases the lock with its token.
    pub fn unlock(&mut self, key: LockToken) -> (r: Result<(), String>)
        ensures
            final(self).wf() == old(self).wf(),
            buffer_unlocked(*old(self), *final(self), key, r),
    {
        let lock = match self.lock_holder {
            Some(l) => l,
            None => return Err("buffer is not locked".to_owned()),
        };
        if lock == key {
            self.lock_holder = None;
            Ok(())
        } else {
            Err("invalid key".to_owned())
        }
    }

    /// Shows the snapshot before the shown one, if any.
    pub fn undo(&mut self)
        requires
            old(self).wf(),
        ensures
            moved_to(*old(self), *final(self), undo_target(*old(self))),
    {
        if self.head != 0 {
            self.head = self.head - 1;
        }
    }

    /// Shows the snapshot after the shown one, if any.
    pub fn redo(&mut self)
        requires
            old(self).wf(),
        ensures
            moved_to(*old(self), *final(self), redo_target(*old(self))),
    {
        let n = self.history.len();
        if self.head + 1 != n {
            self.head = self.head + 1;
        }
    }
}

/// `new` is `old` after the shown snapshot moved to `head`.
pub open spec fn moved_to(old: Buffer, new: Buffer, head: int) -> bool {
    &&& new.wf()
    &&& new.texts() == old.texts()
    &&& new.head() == head
    &&& new.spec_id() == old.spec_id()
    &&& new.spec_path() == old.spec_path()
    &&& new.spec_dirty() == old.spec_dirty()
    &&& new.spec_lock() == old.spec_lock()
}

/// The snapshot that undo shows: the one before the shown one, if any.
pub open spec fn undo_target(b: Buffer) -> int {
    if b.head() == 0 {
        0
    } else {
        b.head() - 1
    }
}

/// The snapshot that redo shows: the one after the shown one, if any.
pub open spec fn redo_target(b: Buffer) -> int {
    if b.head() + 1 == b.texts().len() {
        b.head()
    } else {
        b.head() + 1
    }
}

/// `t` with the characters from `a` to `b` replaced by `ins`.
pub open spec fn splice(t: Seq<char>, a: int, b: int, ins: Seq<char>) -> Seq<char> {
    t.take(a) + ins + t.skip(b)
}

/// `new` is `old` after an edit that made `t` the shown text: under a lock
/// the shown snapshot is rewritten, else `t` becomes a new snapshot after the
/// shown one and the later ones are dropped.
pub open spec fn edited(old: Buffer, new: Buffer, t: Seq<char>) -> bool {
    &&& new.wf()
    &&& new.spec_dirty()
    &&& new.spec_id() == old.spec_id()
    &&& new.spec_path() == old.spec_path()
    &&& new.spec_lock() == old.spec_lock()
    &&& match old.spec_lock() {
        Some(_) => new.texts() == old.texts().update(old.head(), t) && new.head() == old.head(),
        None => new.texts() == old.texts().take(old.head() + 1).push(t) && new.head() == old.head()
            + 1,
    }
}

/// The byte that a position designates, where it lies within the text.
pub open spec fn position_byte(t: Seq<char>, p: BufferPosition) -> Option<int> {
    if p.line_idx > line_count(t) {
        None
    } else {
        let b = line_byte(t, p.line_idx as int) + p.byte_col_idx;
        if b <= utf8_len(t) {
            Some(b)
        } else {
            None
        }
    }
}

/// Why a position is refused.
pub open spec fn position_error(t: Seq<char>, p: BufferPosition) -> Seq<char> {
    if p.line_idx > line_count(t) {
        "line_idx is out of range"@
    } else {
        "byte_idx is out of range"@
    }
}

pub proof fn lemma_chars_within_bound(t: Seq<char>, b: int)
    requires
        0 <= b,
    ensures
        chars_within(t, b) <= t.len(),
        utf8_len(t.take(chars_within(t, b) as int)) <= b,
    decreases t.len(),
{
    if t.len() == 0 {
        assert(t.take(0) =~= Seq::<char>::empty());
    } else if utf8_len(t) <= b {
        assert(t.take(t.len() as int) =~= t);
    } else {
        lemma_chars_within_bound(t.drop_last(), b);
        let k = chars_within(t.drop_last(), b) as int;
        assert(t.drop_last().take(k) =~= t.take(k));
    }
}

pub proof fn lemma_chars_within_mono(t: Seq<char>, a: int, b: int)
    requires
        0 <= a <= b,
    ensures
        chars_within(t, a) <= chars_within(t, b),
    decreases t.len(),
{
    if t.len() > 0 && utf8_len(t) > a {
        lemma_chars_within_bound(t.drop_last(), a);
        if utf8_len(t) > b {
            lemma_chars_within_mono(t.drop_last(), a, b);
        }
    }
}

/// At a character boundary, the character count is the boundary's position.
pub proof fn lemma_chars_within_boundary(t: Seq<char>, k: int)
    requires
        0 <= k <= t.len(),
    ensures
        chars_within(t, utf8_len(t.take(k)) as int) == k,
    decreases t.len(),
{
    if k == t.len() {
        assert(t.take(k) =~= t);
    } else {
        lemma_utf8_len_mono(t, k, t.len() as int);
        assert(t.take(t.len() as int) =~= t);
        assert(t.drop_last().take(k) =~= t.take(k));
        lemma_chars_within_boundary(t.drop_last(), k);
    }
}

/// Redo after undo shows again what was shown before the undo, with the
/// same history.
pub proof fn law_redo_after_undo(b0: Buffer, b1: Buffer, b2: Buffer)
    requires
        b0.wf(),
        b0.head() > 0,
        moved_to(b0, b1, undo_target(b0)),
        moved_to(b1, b2, redo_target(b1)),
    ensures
        b2.texts() == b0.texts(),
        b2.head() == b0.head(),
        b2.text() == b0.text(),
{
}

/// Undo after an unlocked edit shows again the text from before the edit.
pub proof fn law_undo_after_edit(b0: Buffer, b1: Buffer, b2: Buffer, t: Seq<char>)
    requires
        b0.wf(),
        b0.spec_lock() is None,
        edited(b0, b1, t),
        moved_to(b1, b2, undo_target(b1)),
    ensures
        b1.text() == t,
        b2.text() == b0.text(),
{
}

/// An unlocked edit drops the snapshots after the shown one: redo right
/// after it changes nothing.
pub proof fn law_edit_drops_redo(b0: Buffer, b1: Buffer, t: Seq<char>)
    requires
        b0.wf(),
        b0.spec_lock() is None,
        edited(b0, b1, t),
    ensures
        redo_target(b1) == b1.head(),
        b1.texts().len() == b0.head() + 2,
{
}

/// Under a lock, edits rewrite the shown snapshot and add none: undo then
/// leaves the lock's snapshot.
pub proof fn law_locked_edit_keeps_history(b0: Buffer, b1: Buffer, t: Seq<char>)
    requires
        b0.wf(),
        b0.spec_lock() is Some,
        edited(b0, b1, t),
    ensures
        b1.texts().len() == b0.texts().len(),
        b1.head() == b0.head(),
        b1.text() == t,
{
}

/// Removing the characters just inserted gives back the text from before the
/// insertion.
pub proof fn law_remove_after_insert(t: Seq<char>, c: int, ins: Seq<char>)
    requires
        0 <= c <= t.len(),
    ensures
        splice(splice(t, c, c, ins), c, c + ins.len(), Seq::empty()) == t,
        splice(t, c, c, ins).subrange(c, c + ins.len()) == ins,
{
    let u = splice(t, c, c, ins);
    assert(u.take(c) =~= t.take(c));
    assert(u.skip(c + ins.len()) =~= t.skip(c));
    assert(t.take(c) + Seq::<char>::empty() + t.skip(c) =~= t);
    assert(u.subrange(c, c + ins.len()) =~= ins);
}

/// Inserting the characters just removed, where they were, gives back the
/// text from before the removal.
pub proof fn law_insert_after_remove(t: Seq<char>, a: int, b: int)
    requires
        0 <= a <= b <= t.len(),
    ensures
        splice(splice(t, a, b, Seq::empty()), a, a, t.subrange(a, b)) == t,
{
    let u = splice(t, a, b, Seq::empty());
    assert(u.take(a) =~= t.take(a));
    assert(u.skip(a) =~= t.skip(b));
    assert(t.take(a) + t.subrange(a, b) + t.skip(b) =~= t);
}

/// After an edit, the text shown is the edited text.
pub proof fn lemma_edited_text(old: Buffer, new: Buffer, t: Seq<char>)
    requires
        old.wf(),
        edited(old, new, t),
    ensures
        new.text() == t,
{
}

/// Removing the characters from `a` to `b` of `t` puts a carriage return
/// right before a line feed, so that the two make one line break.
pub open spec fn joins_line_break(t: Seq<char>, a: int, b: int) -> bool {
    0 < a && t[a - 1] == '\r' && b < t.len() && t[b] == '\n'
}

/// Texts on which the same line breaks end up to `n` count the same breaks
/// up to `n`.
proof fn lemma_breaks_agree(t: Seq<char>, u: Seq<char>, n: int)
    requires
        forall|i: int| 1 <= i <= n ==> break_ends_at(t, i) == break_ends_at(u, i),
    ensures
        breaks_upto(t, n) == breaks_upto(u, n),
    decreases n,
{
    if n > 0 {
        lemma_breaks_agree(t, u, n - 1);
    }
}

/// A break is the only one with its count.
proof fn lemma_break_unique(t: Seq<char>, i: int, j: int)
    requires
        break_ends_at(t, i),
        break_ends_at(t, j),
        breaks_upto(t, i) == breaks_upto(t, j),
    ensures
        i == j,
{
    if i < j {
        lemma_breaks_upto_mono(t, i, j - 1);
    } else if j < i {
        lemma_breaks_upto_mono(t, j, i - 1);
    }
}

/// A position whose byte starts the removed characters designates the same
/// byte after the removal, unless the removal joins a carriage return and a
/// line feed.
pub proof fn lemma_position_kept(t: Seq<char>, a: int, b: int, p: BufferPosition)
    requires
        0 <= a <= b <= t.len(),
        position_byte(t, p) == Some(utf8_len(t.take(a)) as int),
        !joins_line_break(t, a, b),
    ensures
        position_byte(splice(t, a, b, Seq::empty()), p) == position_byte(t, p),
{
    let u = splice(t, a, b, Seq::empty());
    let l = p.line_idx as int;
    let sb = utf8_len(t.take(a)) as int;
    assert(u.take(a) =~= t.take(a));
    assert(u.take(u.len() as int) =~= u);
    assert(t.take(t.len() as int) =~= t);
    lemma_utf8_len_mono(u, a, u.len() as int);
    if l >= line_count(t) {
        lemma_utf8_len_mono(t, a, t.len() as int);
        assert(a == t.len());
        assert(u =~= t);
    } else if l == 0 {
        assert(line_start(u, 0) == 0 && line_start(t, 0) == 0);
        assert(u.take(0) =~= t.take(0));
    } else {
        lemma_break_exists(t, t.len() as int, l);
        let i0 = line_start(t, l);
        assert(break_ends_at(t, i0) && breaks_upto(t, i0) == l);
        if i0 > a {
            lemma_utf8_len_mono(t, a, i0);
        }
        assert(i0 <= a);
        assert forall|i: int| 1 <= i <= i0 implies break_ends_at(t, i) == break_ends_at(u, i) by {
            if i < a {
                assert(u[i - 1] == t[i - 1]);
                assert(u[i] == t[i]);
            } else {
                assert(u[a - 1] == t[a - 1]);
                if b < t.len() {
                    assert(u[a] == t[b]);
                }
            }
        }
        lemma_breaks_agree(t, u, i0);
        lemma_breaks_upto_mono(u, i0, u.len() as int);
        assert(l < line_count(u));
        let i1 = line_start(u, l);
        lemma_break_exists(u, u.len() as int, l);
        assert(break_ends_at(u, i1) && breaks_upto(u, i1) == l);
        lemma_break_unique(u, i0, i1);
        assert(u.take(i0) =~= t.take(i0));
    }
}

/// Lines start in order.
pub proof fn lemma_line_start_mono(t: Seq<char>, l: int)
    requires
        0 <= l < line_count(t),
    ensures
        0 <= line_start(t, l) <= line_start(t, l + 1) <= t.len(),
{
    lemma_line_start_bound(t, l);
    lemma_line_start_bound(t, l + 1);
    if l + 1 < line_count(t) && l >= 1 {
        lemma_break_exists(t, t.len() as int, l);
        lemma_break_exists(t, t.len() as int, l + 1);
        let i1 = choose|i: int| break_ends_at(t, i) && breaks_upto(t, i) == l;
        let i2 = choose|i: int| break_ends_at(t, i) && breaks_upto(t, i) == l + 1;
        if i1 > i2 {
            lemma_breaks_upto_mono(t, i2, i1);
        }
    } else if l + 1 < line_count(t) {
        lemma_break_exists(t, t.len() as int, l + 1);
    }
}

/// Each line break adds to the count: the count does not shrink.
pub proof fn lemma_breaks_upto_mono(t: Seq<char>, a: int, b: int)
    requires
        a <= b,
    ensures
        breaks_upto(t, a) <= breaks_upto(t, b),
    decreases b - a,
{
    if a < b {
        lemma_breaks_upto_mono(t, a, b - 1);
    }
}

/// The byte `k` characters into line `l`, up to the line's break, is a
/// character boundary of the text, within it, and no further than where the
/// next line starts.
pub proof fn lemma_line_pos(t: Seq<char>, l: int, k: int)
    requires
        0 <= l < line_count(t),
        0 <= k <= trim_newlines(line_text(t, l)).len(),
    ensures
        line_byte(t, l) + utf8_len(trim_newlines(line_text(t, l)).take(k)) == utf8_len(
            t.take(line_start(t, l) + k),
        ),
        line_start(t, l) + k <= line_start(t, l + 1),
        char_boundary(t, line_byte(t, l) + utf8_len(trim_newlines(line_text(t, l)).take(k))),
        line_byte(t, l) + utf8_len(trim_newlines(line_text(t, l)).take(k)) <= utf8_len(t),
        char_boundary(t, line_byte(t, l + 1)),
        line_byte(t, l + 1) <= utf8_len(t),
        utf8_len(t.take(line_start(t, l) + k)) <= line_byte(t, l + 1),
{
    let st = line_start(t, l);
    let lt = line_text(t, l);
    let lo = trim_newlines(lt);
    lemma_line_start_mono(t, l);
    lemma_trim_newlines_prefix(lt);
    assert(t.take(st + k) =~= t.take(st) + lo.take(k));
    lemma_utf8_len_append(t.take(st), lo.take(k));
    lemma_utf8_len_prefix(t, st + k);
    lemma_utf8_len_prefix(t, line_start(t, l + 1));
    lemma_utf8_len_mono(t, st + k, line_start(t, l + 1));
}

/// The byte at which line `l` of `t` starts.
pub open spec fn line_byte(t: Seq<char>, l: int) -> int {
    utf8_len(t.take(line_start(t, l))) as int
}

pub proof fn lemma_line_byte_bound(t: Seq<char>, l: int)
    requires
        0 <= l <= line_count(t),
    ensures
        0 <= line_start(t, l) <= t.len(),
        line_byte(t, l) <= utf8_len(t),
{
    lemma_line_start_bound(t, l);
    crate::text::lemma_utf8_len_prefix(t, line_start(t, l));
}

pub proof fn lemma_breaks_upto_bound(t: Seq<char>, i: int)
    ensures
        breaks_upto(t, i) <= if i < 0 { 0 } else { i },
    decreases i,
{
    if i > 0 {
        lemma_breaks_upto_bound(t, i - 1);
    }
}

/// Every line after the first starts just after a line break.
pub proof fn lemma_break_exists(t: Seq<char>, n: int, l: int)
    requires
        0 <= n <= t.len(),
        1 <= l <= breaks_upto(t, n),
    ensures
        exists|i: int| 1 <= i <= n && break_ends_at(t, i) && breaks_upto(t, i) == l,
    decreases n,
{
    if l <= breaks_upto(t, n - 1) {
        lemma_break_exists(t, n - 1, l);
        let i = choose|i: int| 1 <= i <= n - 1 && break_ends_at(t, i) && breaks_upto(t, i) == l;
        assert(1 <= i <= n && break_ends_at(t, i) && breaks_upto(t, i) == l);
    } else {
        assert(break_ends_at(t, n) && breaks_upto(t, n) == l);
    }
}

pub proof fn lemma_line_start_bound(t: Seq<char>, l: int)
    ensures
        0 <= line_start(t, l) <= t.len(),
{
    if 1 <= l < line_count(t) {
        lemma_break_exists(t, t.len() as int, l);
    }
}

} // verus!
