//! In-memory implementation of a TBF
use vstd::prelude::*;
use vstd::slice::slice_to_vec;

use crate::error::ErrorKind;
use crate::file::{dedup, dedup_tags, tag_views, FileId, Tag};
use crate::pattern::TagPattern;
use crate::{search_result, selected, stored, FileInfo, FileInfoView, FileSystem, StoredFile};

verus! {

/// The ID that the first file added to a store receives.
pub const FIRST_FILE_ID: u64 = 256;

/// Error for an in-memory filesystem
#[derive(Debug)]
pub enum Error {
    /// The requested file did not exist
    FileNotFound(FileId),
    /// The filesystem was poisoned by a thread panic
    Poisoned,
    /// Every ID a file could receive has been handed out
    NoFreeId,
}

impl crate::error::Error for Error {
    open spec fn kind(&self) -> ErrorKind {
        match self {
            Error::FileNotFound(id) => ErrorKind::FileNotFound(*id),
            Error::Poisoned => ErrorKind::State,
            Error::NoFreeId => ErrorKind::Other,
        }
    }

    fn file_not_found(id: FileId) -> (r: Self) {
        Error::FileNotFound(id)
    }

    fn generic_kind(&self) -> (r: ErrorKind) {
        match self {
            Error::FileNotFound(id) => ErrorKind::FileNotFound(*id),
            Error::Poisoned => ErrorKind::State,
            Error::NoFreeId => ErrorKind::Other,
        }
    }
}

/// One slot of the store: the bytes, and the tags while the file is live.
struct Entry {
    data: Vec<u8>,
    tags: Option<Vec<Tag>>,
}

/// An in-memory implementation of a tag-based filesystem. This implementation
/// will store all data in program memory, only persisting it for the duration of the
/// program runtime.
///
/// The file with ID `FIRST_FILE_ID + i` lives in slot `i`; a removed file leaves its slot
/// empty, so that no ID is handed out twice.
pub struct InMemoryFs {
    entries: Vec<Entry>,
}

/// A copy of the tags, value for value.
fn copy_tags(tags: &[Tag]) -> (r: Vec<Tag>)
    ensures
        tag_views(r@) == tag_views(tags@),
{
    let mut out: Vec<Tag> = Vec::new();
    let mut i: usize = 0;
    while i < tags.len()
        invariant
            i <= tags@.len(),
            out@.len() == i,
            tag_views(out@) == tag_views(tags@).take(i as int),
        decreases tags@.len() - i,
    {
        let ghost prev = out@;
        let dup = tags[i].duplicate();
        out.push(dup);
        assert(tag_views(out@) =~= tag_views(prev).push(dup@));
        assert(tag_views(out@) =~= tag_views(tags@).take(i as int + 1));
        i = i + 1;
    }
    assert(tag_views(tags@).take(tags@.len() as int) =~= tag_views(tags@));
    out
}

impl InMemoryFs {
    /// The ID the next added file receives.
    pub closed spec fn next_id(&self) -> nat {
        FIRST_FILE_ID as nat + self.entries@.len()
    }

    /// Whether a file with this ID is live.
    pub closed spec fn live(&self, id: u64) -> bool {
        &&& FIRST_FILE_ID <= id < self.next_id()
        &&& self.entries@[id - FIRST_FILE_ID].tags is Some
    }

    /// The live files, by ID.
    pub closed spec fn files(&self) -> Map<u64, StoredFile> {
        Map::new(
            |id: u64| self.live(id),
            |id: u64|
                StoredFile {
                    data: self.entries@[id - FIRST_FILE_ID].data@,
                    tags: tag_views(self.entries@[id - FIRST_FILE_ID].tags->0@),
                },
        )
    }

    /// Create a new instance of an in-memory filesystem
    pub fn new() -> (r: InMemoryFs)
        ensures
            r.files() == Map::<u64, StoredFile>::empty(),
            r.next_id() == FIRST_FILE_ID,
    {
        let r = InMemoryFs { entries: Vec::new() };
        assert(r.files() =~= Map::<u64, StoredFile>::empty());
        r
    }

    /// The slot of a live file, if the ID names one.
    fn slot(&self, id: FileId) -> (r: Option<usize>)
        ensures
            r is Some <==> self.live(id@),
            r matches Some(i) ==> i == id@ - FIRST_FILE_ID && i < self.entries@.len(),
    {
        let raw = id.into_u64_unchecked();
        if raw < FIRST_FILE_ID {
            return None;
        }
        let off = raw - FIRST_FILE_ID;
        if off >= self.entries.len() as u64 {
            return None;
        }
        let i = off as usize;
        if self.entries[i].tags.is_some() {
            Some(i)
        } else {
            None
        }
    }

    fn assert_file_exists(&self, id: FileId) -> (r: Result<usize, Error>)
        ensures
            r is Ok <==> self.files().contains_key(id@),
            r matches Ok(i) ==> i == id@ - FIRST_FILE_ID && i < self.entries@.len(),
            r matches Err(e) ==> e == Error::FileNotFound(id),
    {
        match self.slot(id) {
            Some(i) => Ok(i),
            None => Err(Error::FileNotFound(id)),
        }
    }
}

impl Default for InMemoryFs {
    fn default() -> (r: InMemoryFs)
        ensures
            r.files() == Map::<u64, StoredFile>::empty(),
            r.next_id() == FIRST_FILE_ID,
    {
        InMemoryFs::new()
    }
}

impl FileSystem for InMemoryFs {
    type Error = Error;

    fn add_file(&mut self, data: &[u8], tags: Vec<Tag>) -> (r: Result<FileId, Error>)
        ensures
            r is Err <==> old(self).next_id() >= u64::MAX,
            r matches Err(e) ==> e == Error::NoFreeId && *final(self) == *old(self),
            r matches Ok(id) ==> {
                &&& id@ == old(self).next_id()
                &&& final(self).next_id() == old(self).next_id() + 1
                &&& final(self).files() == old(self).files().insert(
                    id@,
                    stored(data@, tag_views(tags@)),
                )
            },
    {
        let len = self.entries.len();
        if len as u64 >= u64::MAX - FIRST_FILE_ID {
            return Err(Error::NoFreeId);
        }
        let id = FileId::from_u64_unchecked(FIRST_FILE_ID + len as u64);
        let ghost before = self.files();
        let entry = Entry { data: slice_to_vec(data), tags: Some(dedup_tags(tags.as_slice())) };
        self.entries.push(entry);
        assert(self.files() =~= before.insert(id@, stored(data@, tag_views(tags@))));
        Ok(id)
    }

    fn edit_file(&mut self, id: FileId, data: Option<&[u8]>, tags: Option<Vec<Tag>>) -> (r: Result<
        (),
        Error,
    >)
        ensures
            r is Ok <==> old(self).files().contains_key(id@),
            r matches Err(e) ==> e == Error::FileNotFound(id) && *final(self) == *old(self),
            final(self).next_id() == old(self).next_id(),
            r is Ok ==> final(self).files() == old(self).files().insert(
                id@,
                StoredFile {
                    data: match data {
                        Some(d) => d@,
                        None => old(self).files()[id@].data,
                    },
                    tags: match tags {
                        Some(t) => dedup(tag_views(t@)),
                        None => old(self).files()[id@].tags,
                    },
                },
            ),
    {
        let i = self.assert_file_exists(id)?;
        let ghost before = self.files();
        let new_data = match data {
            Some(d) => slice_to_vec(d),
            None => slice_to_vec(self.entries[i].data.as_slice()),
        };
        let new_tags = match &tags {
            Some(t) => dedup_tags(t.as_slice()),
            None => match &self.entries[i].tags {
                Some(t) => copy_tags(t.as_slice()),
                None => Vec::new(),
            },
        };
        self.entries.set(i, Entry { data: new_data, tags: Some(new_tags) });
        proof {
            let expected = before.insert(
                id@,
                StoredFile {
                    data: match data {
                        Some(d) => d@,
                        None => before[id@].data,
                    },
                    tags: match tags {
                        Some(t) => dedup(tag_views(t@)),
                        None => before[id@].tags,
                    },
                },
            );
            assert(self.files() =~= expected);
        }
        Ok(())
    }

    /// Removing a file that is not live fails with `FileNotFound`, in this store as for
    /// every other operation on such an ID.
    fn remove_file(&mut self, id: FileId) -> (r: Result<(), Error>)
        ensures
            r is Ok <==> old(self).files().contains_key(id@),
            r matches Err(e) ==> e == Error::FileNotFound(id) && *final(self) == *old(self),
            final(self).next_id() == old(self).next_id(),
            final(self).files() == old(self).files().remove(id@),
    {
        let i = self.assert_file_exists(id)?;
        let ghost before = self.files();
        self.entries.set(i, Entry { data: Vec::new(), tags: None });
        assert(self.files() =~= before.remove(id@));
        Ok(())
    }

    fn search_tags<P: TagPattern + ?Sized>(&self, pattern: &P) -> (r: Result<Vec<FileId>, Error>)
        ensures
            r matches Ok(ids) && search_result(self.files(), pattern, ids@),
    {
        let mut out: Vec<FileId> = Vec::new();
        let mut i: usize = 0;
        while i < self.entries.len() && (i as u64) <= u64::MAX - FIRST_FILE_ID
            invariant
                i <= self.entries@.len(),
                forall|k: int, m: int| 0 <= k < m < out@.len() ==> out@[k]@ < out@[m]@,
                forall|k: int|
                    0 <= k < out@.len() ==> FIRST_FILE_ID <= (#[trigger] out@[k])@ < FIRST_FILE_ID
                        + i,
                forall|id: u64|
                    id < FIRST_FILE_ID + i ==> (selected(self.files(), pattern, id) <==> exists|
                        k: int,
                    | 0 <= k < out@.len() && (#[trigger] out@[k])@ == id),
            decreases self.entries@.len() - i,
        {
            let ghost prev = out@;
            match &self.entries[i] {
                Entry { tags: Some(t), .. } => {
                    if pattern.match_tags(t.as_slice()) {
                        out.push(FileId::from_u64_unchecked(FIRST_FILE_ID + i as u64));
                    }
                },
                _ => {},
            }
            proof {
                assert forall|id: u64|
                    id < FIRST_FILE_ID + i + 1 implies (selected(self.files(), pattern, id) <==> exists|
                        k: int,
                    | 0 <= k < out@.len() && (#[trigger] out@[k])@ == id) by {
                    if id < FIRST_FILE_ID + i {
                        if exists|k: int| 0 <= k < out@.len() && (#[trigger] out@[k])@ == id {
                            let k = choose|k: int| 0 <= k < out@.len() && (#[trigger] out@[k])@ == id;
                            if k < prev.len() {
                                assert(prev[k] == out@[k]);
                            }
                        }
                        if exists|k: int| 0 <= k < prev.len() && (#[trigger] prev[k])@ == id {
                            let k = choose|k: int| 0 <= k < prev.len() && (#[trigger] prev[k])@ == id;
                            assert(out@[k] == prev[k]);
                        }
                    } else {
                        if exists|k: int| 0 <= k < out@.len() && (#[trigger] out@[k])@ == id {
                            let k = choose|k: int| 0 <= k < out@.len() && (#[trigger] out@[k])@ == id;
                            assert(k == prev.len());
                        }
                        if out@.len() > prev.len() {
                            assert(out@[prev.len() as int]@ == id);
                        }
                    }
                }
            }
            i = i + 1;
        }
        assert forall|id: u64|
            selected(self.files(), pattern, id) <==> exists|k: int|
                0 <= k < out@.len() && (#[trigger] out@[k])@ == id by {
            if id >= FIRST_FILE_ID + i {
                assert(!self.files().contains_key(id));
            }
        }
        Ok(out)
    }

    fn get_info(&self, id: FileId) -> (r: Result<FileInfo, Error>)
        ensures
            r is Ok <==> self.files().contains_key(id@),
            r matches Err(e) ==> e == Error::FileNotFound(id),
            r matches Ok(info) ==> info@ == (FileInfoView {
                id: id@,
                data: self.files()[id@].data,
                tags: self.files()[id@].tags,
            }),
    {
        let i = self.assert_file_exists(id)?;
        let data = slice_to_vec(self.entries[i].data.as_slice());
        let tags = match &self.entries[i].tags {
            Some(t) => copy_tags(t.as_slice()),
            None => Vec::new(),
        };
        Ok(FileInfo::from_parts(id, data, tags))
    }
}

} // verus!
