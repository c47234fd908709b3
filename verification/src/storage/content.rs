//! The bytes of the pieces: one file per task, written and read by offset.
//!
//! A file starts empty and grows as pieces are written. A write beyond the
//! end fills the gap with zero bytes, so a file can be written in any order.

use crate::digest::{hex, sha256, sha256_hex};
use crate::error::{Error, ErrorKind};
use crate::text::str_eq;
use vstd::prelude::*;
use vstd::string::*;

verus! {

/// The bytes of a file after `data` is written at `offset`: `data` at its
/// place, the old bytes elsewhere, and zero where nothing was written.
pub open spec fn written(file: Seq<u8>, offset: int, data: Seq<u8>) -> Seq<u8> {
    Seq::new(
        if file.len() >= offset + data.len() {
            file.len()
        } else {
            (offset + data.len()) as nat
        },
        |i: int|
            if offset <= i < offset + data.len() {
                data[i - offset]
            } else if i < file.len() {
                file[i]
            } else {
                0u8
            },
    )
}

/// The `length` bytes of a file from `offset` on.
pub open spec fn read(file: Seq<u8>, offset: int, length: int) -> Seq<u8> {
    file.subrange(offset, offset + length)
}

/// Bytes written at an offset are the bytes read back from it.
pub proof fn lemma_write_then_read(file: Seq<u8>, offset: int, data: Seq<u8>)
    requires
        0 <= offset,
    ensures
        read(written(file, offset, data), offset, data.len() as int) == data,
{
    assert(read(written(file, offset, data), offset, data.len() as int) =~= data);
}

/// A write leaves every range that it does not touch as it was.
pub proof fn lemma_write_elsewhere(
    file: Seq<u8>,
    offset: int,
    data: Seq<u8>,
    other: int,
    length: int,
)
    requires
        0 <= offset,
        0 <= other,
        0 <= length,
        other + length <= file.len(),
        other + length <= offset || offset + data.len() <= other,
    ensures
        read(written(file, offset, data), other, length) == read(file, other, length),
{
    assert(read(written(file, offset, data), other, length) =~= read(file, other, length));
}

/// The bytes of one task.
#[derive(Debug)]
pub struct ContentFile {
    task_id: String,
    bytes: Vec<u8>,
}

/// A file as a mathematical value.
pub struct FileView {
    pub task_id: Seq<char>,
    pub bytes: Seq<u8>,
}

impl View for ContentFile {
    type V = FileView;

    closed spec fn view(&self) -> FileView {
        FileView { task_id: self.task_id@, bytes: self.bytes@ }
    }
}

/// What `write_piece` reports: how many bytes were written and their
/// SHA-256 hash in hexadecimal.
#[derive(Debug)]
pub struct WritePieceResponse {
    /// The number of bytes written.
    pub length: u64,
    /// The hash of the bytes written.
    pub hash: String,
}

/// The files of a content store as a mathematical value.
pub struct ContentView {
    pub files: Seq<FileView>,
}

impl ContentView {
    /// True when the task `id` has a file.
    pub open spec fn has_file(self, id: Seq<char>) -> bool {
        exists|i: int| 0 <= i < self.files.len() && (#[trigger] self.files[i]).task_id == id
    }

    /// The position of the file of the task `id`.
    pub open spec fn file_at(self, id: Seq<char>) -> int {
        choose|i: int| 0 <= i < self.files.len() && (#[trigger] self.files[i]).task_id == id
    }

    /// The bytes of the task `id`; none where the task has no file.
    pub open spec fn bytes(self, id: Seq<char>) -> Seq<u8> {
        if self.has_file(id) {
            self.files[self.file_at(id)].bytes
        } else {
            Seq::empty()
        }
    }

    /// No two files belong to one task.
    pub open spec fn wf(self) -> bool {
        forall|i: int, j: int|
            0 <= i < j < self.files.len() ==> (#[trigger] self.files[i]).task_id != (
            #[trigger] self.files[j]).task_id
    }

    /// In a well-formed store the file at position `i` is the one found under
    /// its task id.
    pub proof fn lemma_file_at(self, i: int)
        requires
            self.wf(),
            0 <= i < self.files.len(),
        ensures
            self.has_file(self.files[i].task_id),
            self.file_at(self.files[i].task_id) == i,
            self.bytes(self.files[i].task_id) == self.files[i].bytes,
    {
        let j = self.file_at(self.files[i].task_id);
        assert(0 <= j < self.files.len() && self.files[j].task_id == self.files[i].task_id);
        if j < i {
            assert(self.files[j].task_id != self.files[i].task_id);
        } else if i < j {
            assert(self.files[i].task_id != self.files[j].task_id);
        }
    }

    /// The store after `data` is written at `offset` into the file of the
    /// task `id`. A task without a file gets one.
    pub open spec fn write(self, id: Seq<char>, offset: u64, data: Seq<u8>) -> ContentView {
        if self.has_file(id) {
            ContentView {
                files: self.files.update(
                    self.file_at(id),
                    FileView { task_id: id, bytes: written(self.bytes(id), offset as int, data) },
                ),
            }
        } else {
            ContentView {
                files: self.files.push(
                    FileView { task_id: id, bytes: written(Seq::empty(), offset as int, data) },
                ),
            }
        }
    }

    /// The store without the file of the task `id`.
    pub open spec fn without(self, id: Seq<char>) -> ContentView {
        if self.has_file(id) {
            ContentView { files: self.files.remove(self.file_at(id)) }
        } else {
            self
        }
    }

    /// After a write the task has a file, the file holds the old bytes with
    /// the new ones at their place, and the other files are as they were.
    pub proof fn lemma_write(self, id: Seq<char>, offset: u64, data: Seq<u8>)
        requires
            self.wf(),
        ensures
            self.write(id, offset, data).wf(),
            self.write(id, offset, data).has_file(id),
            self.write(id, offset, data).bytes(id) == written(self.bytes(id), offset as int, data),
            self.write(id, offset, data).same_but(self, id),
    {
        let after = self.write(id, offset, data);
        let at = if self.has_file(id) {
            self.file_at(id)
        } else {
            self.files.len() as int
        };
        if self.has_file(id) {
            self.lemma_file_at(at);
        }
        assert forall|a: int, b: int| 0 <= a < b < after.files.len() implies (
        #[trigger] after.files[a]).task_id != (#[trigger] after.files[b]).task_id by {
            if b < self.files.len() {
                assert(self.files[a].task_id != self.files[b].task_id);
            } else {
                assert(self.files[a].task_id != id);
            }
        }
        after.lemma_file_at(at);
        assert forall|x: Seq<char>| x != id implies after.has_file(x) == self.has_file(x)
            && after.bytes(x) == self.bytes(x) by {
            if self.has_file(x) {
                let b = self.file_at(x);
                self.lemma_file_at(b);
                assert(after.files[b] == self.files[b]);
                after.lemma_file_at(b);
            }
            if after.has_file(x) {
                let k = after.file_at(x);
                after.lemma_file_at(k);
                assert(after.files[k] == self.files[k]);
            }
        }
    }

    /// After a file is dropped its task has none, and the other files are as
    /// they were.
    pub proof fn lemma_without(self, id: Seq<char>)
        requires
            self.wf(),
        ensures
            self.without(id).wf(),
            !self.without(id).has_file(id),
            self.without(id).same_but(self, id),
    {
        let after = self.without(id);
        if self.has_file(id) {
            let i = self.file_at(id);
            self.lemma_file_at(i);
            assert forall|k: int| 0 <= k < after.files.len() implies (#[trigger] after.files[k])
                == self.files[if k < i {
                k
            } else {
                k + 1
            }] && after.files[k].task_id != id by {
                let b = if k < i {
                    k
                } else {
                    k + 1
                };
                assert(after.files[k] == self.files[b]);
                if self.files[b].task_id == id {
                    self.lemma_file_at(b);
                }
            }
            assert forall|a: int, b: int| 0 <= a < b < after.files.len() implies (
            #[trigger] after.files[a]).task_id != (#[trigger] after.files[b]).task_id by {
                let sa = if a < i {
                    a
                } else {
                    a + 1
                };
                let sb = if b < i {
                    b
                } else {
                    b + 1
                };
                assert(self.files[sa].task_id != self.files[sb].task_id);
            }
            assert forall|x: Seq<char>| x != id implies after.has_file(x) == self.has_file(x)
                && after.bytes(x) == self.bytes(x) by {
                if self.has_file(x) {
                    let b = self.file_at(x);
                    self.lemma_file_at(b);
                    let k = if b < i {
                        b
                    } else {
                        b - 1
                    };
                    assert(after.files[k] == self.files[b]);
                    after.lemma_file_at(k);
                }
                if after.has_file(x) {
                    let k = after.file_at(x);
                    after.lemma_file_at(k);
                }
            }
        }
    }

    /// True when the two stores hold the same bytes for every task but `id`.
    pub open spec fn same_but(self, other: ContentView, id: Seq<char>) -> bool {
        &&& forall|x: Seq<char>| x != id ==> #[trigger] self.has_file(x) == other.has_file(x)
        &&& forall|x: Seq<char>| x != id ==> #[trigger] self.bytes(x) == other.bytes(x)
    }
}

/// The store of piece bytes.
#[derive(Debug)]
pub struct Content {
    files: Vec<ContentFile>,
}

impl View for Content {
    type V = ContentView;

    closed spec fn view(&self) -> ContentView {
        ContentView { files: Seq::new(self.files@.len(), |i: int| self.files@[i]@) }
    }
}

impl Content {
    /// The invariant that every operation keeps.
    pub open spec fn wf(&self) -> bool {
        self@.wf()
    }

    /// An empty store.
    pub fn new() -> (r: Content)
        ensures
            r.wf(),
            r@.files.len() == 0,
    {
        Content { files: Vec::new() }
    }

    fn find(&self, task_id: &str) -> (r: Option<usize>)
        ensures
            match r {
                Some(i) => i < self@.files.len() && self@.files[i as int].task_id == task_id@,
                None => !self@.has_file(task_id@),
            },
    {
        let mut i: usize = 0;
        while i < self.files.len()
            invariant
                i <= self.files@.len(),
                forall|j: int| 0 <= j < i ==> (#[trigger] self@.files[j]).task_id != task_id@,
            decreases self.files@.len() - i,
        {
            if str_eq(self.files[i].task_id.as_str(), task_id) {
                return Some(i);
            }
            i = i + 1;
        }
        None
    }

    /// Writes `data` into the file of the task `task_id` at `offset` and
    /// reports the number of bytes and their hash. The file is created if
    /// the task has none. Fails with `InvalidParameter`, and writes nothing,
    /// where the end of the write cannot be addressed on this machine.
    pub fn write_piece(&mut self, task_id: &str, offset: u64, data: &[u8]) -> (r: Result<
        WritePieceResponse,
        Error,
    >)
        requires
            old(self).wf(),
        ensures
            final(self).wf(),
            match r {
                Ok(w) => {
                    &&& offset + data@.len() <= usize::MAX
                    &&& w.length == data@.len()
                    &&& w.hash@ == hex(sha256(data@))
                    &&& final(self)@ == old(self)@.write(task_id@, offset, data@)
                },
                Err(e) => {
                    &&& offset + data@.len() > usize::MAX
                    &&& e.spec_kind() == ErrorKind::InvalidParameter
                    &&& final(self)@ == old(self)@
                },
            },
    {
        let n: usize = data.len();
        if offset > usize::MAX as u64 || n > usize::MAX - (offset as usize) {
            return Err(Error::InvalidParameter);
        }
        let start: usize = offset as usize;
        let found = self.find(task_id);
        let ghost before = self@;
        let ghost old_bytes = before.bytes(task_id@);
        proof {
            before.lemma_write(task_id@, offset, data@);
        }
        let mut bytes: Vec<u8> = match found {
            Some(i) => {
                proof {
                    before.lemma_file_at(i as int);
                }
                let f = self.files.remove(i);
                f.bytes
            },
            None => Vec::new(),
        };
        assert(bytes@ == old_bytes);
        while bytes.len() < start
            invariant
                bytes@.len() <= start || bytes@.len() == old_bytes.len(),
                bytes@.len() >= old_bytes.len(),
                forall|k: int| 0 <= k < old_bytes.len() ==> bytes@[k] == old_bytes[k],
                forall|k: int| old_bytes.len() <= k < bytes@.len() ==> bytes@[k] == 0u8,
            decreases start - bytes@.len(),
        {
            bytes.push(0u8);
        }
        assert(bytes@ =~= written(old_bytes, start as int, data@.take(0)));
        let mut j: usize = 0;
        while j < n
            invariant
                j <= n,
                n == data@.len(),
                start + n <= usize::MAX,
                bytes@ == written(old_bytes, start as int, data@.take(j as int)),
            decreases n - j,
        {
            let pos: usize = start + j;
            if pos < bytes.len() {
                bytes.set(pos, data[j]);
            } else {
                bytes.push(data[j]);
            }
            assert(bytes@ =~= written(old_bytes, start as int, data@.take(j + 1)));
            j = j + 1;
        }
        assert(data@.take(n as int) =~= data@);
        let file = ContentFile { task_id: String::from_str(task_id), bytes };
        match found {
            Some(i) => {
                self.files.insert(i, file);
                assert(self@.files =~= before.files.update(i as int, file@));
            },
            None => {
                self.files.push(file);
                assert(self@.files =~= before.files.push(file@));
            },
        }
        Ok(WritePieceResponse { length: n as u64, hash: sha256_hex(data) })
    }

    /// Reads `length` bytes of the task `task_id` from `offset` on. Fails
    /// with `TaskNotFound` where the task has no file, and with
    /// `InvalidParameter` where the file ends before the range does.
    pub fn read_piece(&self, task_id: &str, offset: u64, length: u64) -> (r: Result<Vec<u8>, Error>)
        requires
            self.wf(),
        ensures
            match r {
                Ok(v) => self@.has_file(task_id@) && offset + length <= self@.bytes(task_id@).len()
                    && v@ == read(self@.bytes(task_id@), offset as int, length as int),
                Err(e) => if !self@.has_file(task_id@) {
                    e.is_of(ErrorKind::TaskNotFound, task_id@)
                } else {
                    offset + length > self@.bytes(task_id@).len() && e.spec_kind()
                        == ErrorKind::InvalidParameter
                },
            },
    {
        let i: usize = match self.find(task_id) {
            Some(i) => i,
            None => {
                return Err(Error::TaskNotFound(String::from_str(task_id)));
            },
        };
        proof {
            self@.lemma_file_at(i as int);
        }
        let bytes = &self.files[i].bytes;
        let total: usize = bytes.len();
        if offset > total as u64 || length > (total as u64) - offset {
            return Err(Error::InvalidParameter);
        }
        let start: usize = offset as usize;
        let end: usize = start + (length as usize);
        let mut out: Vec<u8> = Vec::new();
        let mut k: usize = start;
        while k < end
            invariant
                start <= k <= end,
                end <= bytes@.len(),
                out@ == bytes@.subrange(start as int, k as int),
            decreases end - k,
        {
            out.push(bytes[k]);
            assert(out@ =~= bytes@.subrange(start as int, k + 1));
            k = k + 1;
        }
        Ok(out)
    }

    /// Deletes the file of the task `task_id`, if it has one.
    pub fn delete_task(&mut self, task_id: &str) -> (r: Result<(), Error>)
        requires
            old(self).wf(),
        ensures
            final(self).wf(),
            r is Ok,
            final(self)@ == old(self)@.without(task_id@),
    {
        let ghost before = self@;
        proof {
            before.lemma_without(task_id@);
        }
        match self.find(task_id) {
            Some(i) => {
                proof {
                    before.lemma_file_at(i as int);
                }
                self.files.remove(i);
                assert(self@.files =~= before.files.remove(i as int));
                Ok(())
            },
            None => Ok(()),
        }
    }
}

} // verus!
