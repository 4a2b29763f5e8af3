//! The directory-backed store: what it decides and computes. Each file lives in two files
//! of one directory, named by its ID (see `names`): its bytes, and its tag record (see
//! `codec`). A file named `tbf.dat` holds the next ID to hand out.
//!
//! Reading and writing those files is left to the caller: the functions here take what was
//! read and return what is to be written.
use vstd::prelude::*;

use crate::codec::{
    decode_tag_record, encode_tag_record, le_to_u64, le_to_u64_prefix, parse_tag_record,
    tag_record, tags_fit, u64_le, u64_to_le,
};
use crate::error::ErrorKind;
use crate::file::{dedup, tag_views, FileId, Tag, TagView};
use crate::imfs::FIRST_FILE_ID;
use crate::names::{data_file_name, data_name, parse_tag_name, tag_file_name, tag_name};
use crate::pattern::TagPattern;
use crate::{strictly_increasing, FileInfo, FileInfoView};

verus! {

#[verifier::external_type_specification]
#[verifier::external_body]
pub struct ExIoError(std::io::Error);

/// Error for a directory-backed filesystem
#[derive(Debug)]
pub enum Error {
    /// A file wasn't found
    FileNotFound(FileId),
    /// A thread panic poisoned the state
    Poisoned,
    /// An I/O error occured
    IoError(std::io::Error),
    /// A stored record could not be read back
    Corrupt,
    /// A tag's name or group is too long to store
    TooLong,
    /// Every ID a file could receive has been handed out
    NoFreeId,
}

impl crate::error::Error for Error {
    open spec fn kind(&self) -> ErrorKind {
        match self {
            Error::FileNotFound(id) => ErrorKind::FileNotFound(*id),
            Error::Poisoned => ErrorKind::State,
            Error::IoError(_) => ErrorKind::Source,
            Error::Corrupt => ErrorKind::Other,
            Error::TooLong => ErrorKind::Other,
            Error::NoFreeId => ErrorKind::Other,
        }
    }

    fn file_not_found(id: FileId) -> (r: Self) {
        Error::FileNotFound(id)
    }

    fn generic_kind(&self) -> (r: ErrorKind) {
        match self {
            Error::FileNotFound(id) => ErrorKind::FileNotFound(*id),
            Error::Poisoned => ErrorKind::State,
            Error::IoError(_) => ErrorKind::Source,
            Error::Corrupt => ErrorKind::Other,
            Error::TooLong => ErrorKind::Other,
            Error::NoFreeId => ErrorKind::Other,
        }
    }
}

/// Relies on `std::io::Error::new`: an error of kind `Other` that carries the message.
#[verifier::external_body]
fn not_a_directory() -> (r: std::io::Error) {
    std::io::Error::new(std::io::ErrorKind::Other, "Provided path exists and is not a directory")
}

/// Relies on `std::io::Error::from`: an error of kind `UnexpectedEof`, as a read that ends
/// too early gives.
#[verifier::external_body]
fn truncated_read() -> (r: std::io::Error) {
    std::io::Error::from(std::io::ErrorKind::UnexpectedEof)
}

/// The name of the file, inside the store's directory, that holds the next ID.
pub const STATE_FILE_NAME: &'static str = "tbf.dat";

/// The counter of a store opened on a directory whose state file holds `saved`, or has
/// none (`None`); `None` when the file is too short to hold a counter.
pub open spec fn opened_next_id(saved: Option<Seq<u8>>) -> Option<u64> {
    match saved {
        None => Some(FIRST_FILE_ID),
        Some(b) => if b.len() >= 8 {
            Some(le_to_u64(b))
        } else {
            None
        },
    }
}

/// The persisted part of the store: the next ID to hand out.
struct SavedState {
    cur_id: u64,
}

impl SavedState {
    /// The state held by the state file, or the initial one when there is no such file.
    fn from_bytes(saved: Option<&[u8]>) -> (r: Result<SavedState, Error>)
        ensures
            match opened_next_id(
                match saved {
                    Some(b) => Some(b@),
                    None => None,
                },
            ) {
                Some(n) => if n >= FIRST_FILE_ID {
                    r matches Ok(s) && s.cur_id == n
                } else {
                    r matches Err(Error::Corrupt)
                },
                None => r matches Err(Error::IoError(_)),
            },
    {
        match saved {
            None => Ok(SavedState { cur_id: FIRST_FILE_ID }),
            Some(b) => match le_to_u64_prefix(b) {
                Some(n) => if n >= FIRST_FILE_ID {
                    Ok(SavedState { cur_id: n })
                } else {
                    Err(Error::Corrupt)
                },
                None => Err(Error::IoError(truncated_read())),
            },
        }
    }

    /// The bytes of the state file.
    fn save(&self) -> (r: Vec<u8>)
        ensures
            r@ == u64_le(self.cur_id),
    {
        u64_to_le(self.cur_id)
    }
}

/// The tags a record holds, in the order stored; `None` when it does not parse.
pub open spec fn record_tags(bytes: Seq<u8>) -> Option<Seq<TagView>> {
    parse_tag_record(bytes)
}

/// Whether a tag record parses and its tags meet the pattern.
pub open spec fn record_matches<P: TagPattern + ?Sized>(pattern: &P, bytes: Seq<u8>) -> bool {
    parse_tag_record(bytes) matches Some(ts) && pattern.matches(ts)
}

/// The IDs of the records that meet the pattern, in the order given.
pub open spec fn matching_ids<P: TagPattern + ?Sized>(
    pattern: &P,
    records: Seq<(FileId, Vec<u8>)>,
) -> Seq<FileId>
    decreases records.len(),
{
    if records.len() == 0 {
        Seq::empty()
    } else {
        let prev = matching_ids(pattern, records.drop_last());
        if record_matches(pattern, records.last().1@) {
            prev.push(records.last().0)
        } else {
            prev
        }
    }
}

/// Whether one of the names is the name of the tag file of `id`.
pub open spec fn names_tag_file(names: Seq<String>, id: u64) -> bool {
    exists|j: int| 0 <= j < names.len() && #[trigger] names[j]@ == tag_file_name(id)
}

/// Whether the records' IDs are in strictly increasing order.
pub open spec fn records_increasing(records: Seq<(FileId, Vec<u8>)>) -> bool {
    forall|i: int, j: int| 0 <= i < j < records.len() ==> records[i].0@ < records[j].0@
}

/// Whether some record with this ID meets the pattern.
pub open spec fn found_in<P: TagPattern + ?Sized>(
    pattern: &P,
    records: Seq<(FileId, Vec<u8>)>,
    id: FileId,
) -> bool {
    exists|j: int|
        0 <= j < records.len() && records[j].0 == id && #[trigger] record_matches(
            pattern,
            records[j].1@,
        )
}

/// A directory-backed implementation of a tag-based filesystem. Given a directory on a
/// standard filesystem, it decides what is to be kept there.
pub struct DirectoryBackedFs {
    dir: String,
    state: SavedState,
}

impl DirectoryBackedFs {
    /// The next ID is never a reserved one.
    #[verifier::type_invariant]
    spec fn next_is_ordinary(&self) -> bool {
        self.state.cur_id >= FIRST_FILE_ID
    }

    /// The directory the store keeps its files in.
    pub closed spec fn dir_spec(&self) -> Seq<char> {
        self.dir@
    }

    /// The ID the next added file receives.
    pub closed spec fn next_id(&self) -> u64 {
        self.state.cur_id
    }

    /// Create or load a directory-backed filesystem in the directory `dir`, whose state file
    /// holds `saved`, or is missing (`None`). A state file too short to hold a counter is a
    /// truncated read (`IoError`); one whose counter lies in the reserved range is `Corrupt`.
    pub fn new(dir: String, saved: Option<&[u8]>) -> (r: Result<DirectoryBackedFs, Error>)
        ensures
            match opened_next_id(
                match saved {
                    Some(b) => Some(b@),
                    None => None,
                },
            ) {
                Some(n) => if n >= FIRST_FILE_ID {
                    r matches Ok(fs) && fs.next_id() == n && fs.dir_spec() == dir@
                } else {
                    r matches Err(Error::Corrupt)
                },
                None => r matches Err(Error::IoError(_)),
            },
            r matches Ok(fs) ==> fs.next_id() >= FIRST_FILE_ID,
    {
        let state = SavedState::from_bytes(saved)?;
        Ok(DirectoryBackedFs { dir, state })
    }

    /// The directory the store keeps its files in.
    pub fn dir(&self) -> (r: &str)
        ensures
            r@ == self.dir_spec(),
    {
        self.dir.as_str()
    }

    /// The ID the next added file receives.
    pub fn current_id(&self) -> (r: u64)
        ensures
            r == self.next_id(),
            r >= FIRST_FILE_ID,
    {
        proof {
            use_type_invariant(self);
        }
        self.state.cur_id
    }

    /// Fails unless the store's path is a directory; `is_dir` says whether it is one now.
    pub fn assert_dir(&self, is_dir: bool) -> (r: Result<(), Error>)
        ensures
            r is Ok <==> is_dir,
            r is Err ==> r matches Err(Error::IoError(_)),
    {
        if is_dir {
            Ok(())
        } else {
            Err(Error::IoError(not_a_directory()))
        }
    }

    /// The name of the file holding the bytes of the file with this ID.
    pub fn file_name(&self, id: FileId) -> (r: String)
        ensures
            r@ == data_file_name(id@),
    {
        data_name(id)
    }

    /// The name of the file holding the tags of the file with this ID.
    pub fn tag_file_name(&self, id: FileId) -> (r: String)
        ensures
            r@ == tag_file_name(id@),
    {
        tag_name(id)
    }

    /// Hands out the next ID; the caller persists `saved_state` afterwards.
    pub fn allocate_id(&mut self) -> (r: Result<FileId, Error>)
        ensures
            r is Err <==> old(self).next_id() == u64::MAX,
            r matches Err(e) ==> e == Error::NoFreeId && *final(self) == *old(self),
            r matches Ok(id) ==> id@ == old(self).next_id() && final(self).next_id()
                == old(self).next_id() + 1 && final(self).dir_spec() == old(self).dir_spec(),
            r matches Ok(id) ==> id@ >= FIRST_FILE_ID,
    {
        proof {
            use_type_invariant(&*self);
        }
        if self.state.cur_id == u64::MAX {
            return Err(Error::NoFreeId);
        }
        let id = FileId::from_u64_unchecked(self.state.cur_id);
        self.state = SavedState { cur_id: self.state.cur_id + 1 };
        Ok(id)
    }

    /// The bytes of the state file, to be written after every allocation.
    pub fn saved_state(&self) -> (r: Vec<u8>)
        ensures
            r@ == u64_le(self.next_id()),
    {
        self.state.save()
    }

    /// Fails with `FileNotFound` unless the file is live; `exists` says whether its tag file
    /// is there.
    pub fn require_live(&self, id: FileId, exists: bool) -> (r: Result<(), Error>)
        ensures
            r is Ok <==> exists,
            r is Err ==> (r matches Err(Error::FileNotFound(x)) && x == id),
    {
        if exists {
            Ok(())
        } else {
            Err(Error::FileNotFound(id))
        }
    }

    /// The tag record to write for these tags, in the order given; `TooLong` when a name or
    /// group is too long for its four-byte length.
    pub fn write_tags(tags: &[Tag]) -> (r: Result<Vec<u8>, Error>)
        ensures
            r is Ok <==> tags_fit(tag_views(tags@)),
            r matches Ok(b) ==> b@ == tag_record(tag_views(tags@)),
            r is Err ==> r matches Err(Error::TooLong),
    {
        match encode_tag_record(tags) {
            Some(b) => Ok(b),
            None => Err(Error::TooLong),
        }
    }

    /// The tags a record holds, in the order stored; `Corrupt` when it does not parse.
    pub fn read_tags(bytes: &[u8]) -> (r: Result<Vec<Tag>, Error>)
        ensures
            match record_tags(bytes@) {
                Some(ts) => r matches Ok(v) && tag_views(v@) == ts,
                None => r matches Err(Error::Corrupt),
            },
    {
        match decode_tag_record(bytes) {
            Some(v) => Ok(v),
            None => Err(Error::Corrupt),
        }
    }

    /// The IDs named by tag files among the directory's entries, in increasing order and
    /// each once; every other name is skipped.
    pub fn tag_file_ids(names: &[String]) -> (r: Vec<FileId>)
        ensures
            strictly_increasing(r@),
            forall|id: u64|
                names_tag_file(names@, id) <==> exists|k: int|
                    0 <= k < r@.len() && (#[trigger] r@[k])@ == id,
    {
        let mut out: Vec<FileId> = Vec::new();
        let mut i: usize = 0;
        while i < names.len()
            invariant
                i <= names@.len(),
                strictly_increasing(out@),
                forall|id: u64|
                    names_tag_file(names@.take(i as int), id) <==> exists|k: int|
                        0 <= k < out@.len() && (#[trigger] out@[k])@ == id,
            decreases names@.len() - i,
        {
            let ghost prev = out@;
            let ghost prefix = names@.take(i as int);
            let ghost next = names@.take(i as int + 1);
            let parsed = parse_tag_name(names[i].as_str());
            match parsed {
                Some(id) => {
                    let mut p: usize = 0;
                    while p < out.len() && out[p].into_u64_unchecked() < id.into_u64_unchecked()
                        invariant
                            p <= out@.len(),
                            out@ == prev,
                            forall|k: int| 0 <= k < p ==> (#[trigger] out@[k])@ < id@,
                        decreases out@.len() - p,
                    {
                        p = p + 1;
                    }
                    if p < out.len() && out[p].into_u64_unchecked() == id.into_u64_unchecked() {
                    } else {
                        out.insert(p, id);
                        assert forall|a: int, b: int|
                            0 <= a < b < out@.len() implies out@[a]@ < out@[b]@ by {
                            if b < p {
                                assert(out@[a] == prev[a] && out@[b] == prev[b]);
                            } else if b == p {
                                assert(out@[a] == prev[a]);
                            } else if a < p {
                                assert(out@[a] == prev[a] && out@[b] == prev[b - 1]);
                                assert(prev[p as int]@ > id@);
                            } else if a == p {
                                assert(out@[b] == prev[b - 1]);
                                assert(prev[p as int]@ > id@);
                                assert(prev[p as int]@ <= prev[b - 1]@);
                            } else {
                                assert(out@[a] == prev[a - 1] && out@[b] == prev[b - 1]);
                            }
                        }
                    }
                },
                None => {},
            }
            proof {
                assert forall|x: u64|
                    names_tag_file(next, x) <==> exists|k: int|
                        0 <= k < out@.len() && (#[trigger] out@[k])@ == x by {
                    if names_tag_file(next, x) {
                        let j = choose|j: int| 0 <= j < next.len() && #[trigger] next[j]@
                            == tag_file_name(x);
                        if j < i {
                            assert(prefix[j] == next[j]);
                            assert(names_tag_file(prefix, x));
                            let k = choose|k: int| 0 <= k < prev.len() && (#[trigger] prev[k])@ == x;
                            if let Some(id) = parsed {
                                if out@.len() > prev.len() {
                                    let q = choose|q: int| 0 <= q <= prev.len() && out@ == prev.insert(q, id);
                                    if k < q {
                                        assert(out@[k] == prev[k]);
                                    } else {
                                        assert(out@[k + 1] == prev[k]);
                                    }
                                } else {
                                    assert(out@[k] == prev[k]);
                                }
                            } else {
                                assert(out@[k] == prev[k]);
                            }
                        } else {
                            assert(next[j] == names@[i as int]);
                            match parsed {
                                Some(id) => {
                                    crate::names::lemma_tag_file_name_injective(x, id@);
                                    assert(exists|k: int| 0 <= k < out@.len() && (#[trigger] out@[k])@ == id@) by {
                                        if out@.len() > prev.len() {
                                            let q = choose|q: int| 0 <= q <= prev.len() && out@ == prev.insert(q, id);
                                            assert(out@[q] == id);
                                        }
                                    }
                                },
                                None => {},
                            }
                        }
                    }
                    if exists|k2: int| 0 <= k2 < prev.len() && (#[trigger] prev[k2])@ == x {
                        assert(names_tag_file(prefix, x));
                        let j = choose|j: int| 0 <= j < prefix.len() && #[trigger] prefix[j]@
                            == tag_file_name(x);
                        assert(next[j] == prefix[j]);
                    }
                    if exists|k: int| 0 <= k < out@.len() && (#[trigger] out@[k])@ == x {
                        let k = choose|k: int| 0 <= k < out@.len() && (#[trigger] out@[k])@ == x;
                        if parsed is Some && out@.len() > prev.len() {
                            let id = parsed->0;
                            let q = choose|q: int| 0 <= q <= prev.len() && out@ == prev.insert(q, id);
                            if k < q {
                                assert(out@[k] == prev[k]);
                            } else if k == q {
                                assert(next[i as int] == names@[i as int]);
                            } else {
                                assert(out@[k] == prev[k - 1]);
                            }
                        } else {
                            assert(out@[k] == prev[k]);
                        }
                    }
                }
            }
            i = i + 1;
        }
        assert(names@.take(names@.len() as int) =~= names@);
        out
    }

    /// The IDs of the records that meet the pattern, in the order given; `Corrupt` when one
    /// of the records does not parse.
    pub fn search_records<P: TagPattern + ?Sized>(pattern: &P, records: &[(FileId, Vec<u8>)]) -> (r:
        Result<Vec<FileId>, Error>)
        ensures
            r is Ok <==> forall|i: int|
                0 <= i < records@.len() ==> parse_tag_record(#[trigger] records@[i].1@) is Some,
            r matches Ok(ids) ==> ids@ == matching_ids(pattern, records@),
            r matches Ok(ids) ==> forall|id: FileId|
                ids@.contains(id) <==> found_in(pattern, records@, id),
            r matches Ok(ids) ==> (records_increasing(records@) ==> strictly_increasing(ids@)),
            r is Err ==> r matches Err(Error::Corrupt),
    {
        let mut out: Vec<FileId> = Vec::new();
        let mut i: usize = 0;
        while i < records.len()
            invariant
                i <= records@.len(),
                out@ == matching_ids(pattern, records@.take(i as int)),
                forall|j: int| 0 <= j < i ==> parse_tag_record(#[trigger] records@[j].1@) is Some,
                forall|id: FileId|
                    out@.contains(id) <==> found_in(pattern, records@.take(i as int), id),
                records_increasing(records@) ==> strictly_increasing(out@),
                forall|k: int|
                    0 <= k < out@.len() ==> exists|j: int|
                        0 <= j < i && records@[j].0 == #[trigger] out@[k],
            decreases records@.len() - i,
        {
            let ghost prev = out@;
            let ghost prefix = records@.take(i as int + 1);
            assert(prefix.drop_last() =~= records@.take(i as int));
            let (id, bytes) = &records[i];
            match decode_tag_record(bytes.as_slice()) {
                Some(tags) => {
                    if pattern.match_tags(tags.as_slice()) {
                        out.push(*id);
                    }
                },
                None => {
                    return Err(Error::Corrupt);
                },
            }
            proof {
                let before = records@.take(i as int);
                assert forall|id: FileId|
                    out@.contains(id) <==> found_in(pattern, prefix, id) by {
                    if found_in(pattern, before, id) {
                        let j = choose|j: int|
                            0 <= j < before.len() && before[j].0 == id && #[trigger] record_matches(
                                pattern,
                                before[j].1@,
                            );
                        assert(prefix[j] == before[j]);
                    }
                    if found_in(pattern, prefix, id) {
                        let j = choose|j: int|
                            0 <= j < prefix.len() && prefix[j].0 == id && #[trigger] record_matches(
                                pattern,
                                prefix[j].1@,
                            );
                        if j < i {
                            assert(before[j] == prefix[j]);
                        } else {
                            assert(out@[out@.len() - 1] == id);
                        }
                    }
                    if out@.contains(id) {
                        let k = choose|k: int| 0 <= k < out@.len() && out@[k] == id;
                        if k < prev.len() {
                            assert(prev[k] == id);
                            assert(prev.contains(id));
                            assert(found_in(pattern, before, id));
                            let j = choose|j: int|
                                0 <= j < before.len() && before[j].0 == id && #[trigger] record_matches(
                                    pattern,
                                    before[j].1@,
                                );
                            assert(prefix[j] == before[j]);
                        } else {
                            assert(prefix[i as int] == records@[i as int]);
                            assert(record_matches(pattern, prefix[i as int].1@));
                        }
                    }
                    if prev.contains(id) {
                        let k = choose|k: int| 0 <= k < prev.len() && prev[k] == id;
                        assert(out@[k] == prev[k]);
                    }
                }
                assert forall|k: int|
                    0 <= k < out@.len() implies exists|j: int|
                        0 <= j < i + 1 && records@[j].0 == #[trigger] out@[k] by {
                    if k < prev.len() {
                        assert(out@[k] == prev[k]);
                    }
                }
                if records_increasing(records@) && out@.len() > prev.len() {
                    assert forall|a: int, b: int| 0 <= a < b < out@.len() implies out@[a]@ < out@[b]@ by {
                        if b < prev.len() {
                            assert(out@[a] == prev[a] && out@[b] == prev[b]);
                        } else {
                            assert(out@[a] == prev[a]);
                            let j = choose|j: int| 0 <= j < i && records@[j].0 == #[trigger] prev[a];
                        }
                    }
                }
            }
            i = i + 1;
        }
        assert(records@.take(records@.len() as int) =~= records@);
        Ok(out)
    }

    /// The info on a file, from its bytes and its tag record (`None` for a missing file);
    /// `FileNotFound` when either is missing, `Corrupt` when the record does not parse.
    pub fn file_info(id: FileId, data: Option<Vec<u8>>, tag_bytes: Option<&[u8]>) -> (r: Result<
        FileInfo,
        Error,
    >)
        ensures
            (data is None || tag_bytes is None) ==> (r matches Err(Error::FileNotFound(x)) && x
                == id),
            data matches Some(d) ==> tag_bytes matches Some(b) ==> match record_tags(b@) {
                Some(ts) => r matches Ok(info) && info@ == (FileInfoView {
                    id: id@,
                    data: d@,
                    tags: dedup(ts),
                }),
                None => r matches Err(Error::Corrupt),
            },
    {
        match (data, tag_bytes) {
            (Some(d), Some(b)) => {
                let tags = Self::read_tags(b)?;
                Ok(FileInfo::new(id, d, tags.as_slice()))
            },
            _ => Err(Error::FileNotFound(id)),
        }
    }
}

} // verus!
