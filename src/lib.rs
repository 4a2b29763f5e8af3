//! The TBF, short for 'tag-based filesystem', is a way of storing files.
//!
//! Every file has a unique machine ID and a set of tags, each a name in an optional
//! group. Files are found by matching boolean predicates over their tags rather than
//! by walking a tree of paths.
//!
//! The store is defined as a trait, with implementations free to keep their data where
//! they like: in memory, or in a directory of an ordinary filesystem.
use vstd::prelude::*;

pub mod codec;
pub mod dfs;
pub mod error;
pub mod file;
pub mod imfs;
pub mod laws;
pub mod names;
pub mod pattern;
mod sealed;

pub use dfs::{DirectoryBackedFs, Error as DfsError};
pub use error::{Error, ErrorKind};
pub use file::{
    dedup, dedup_tags, lemma_dedup, lemma_file_id_view_injective, tag_views, FileId, Group, GroupView, Tag, TagView,
    LAST_SPECIAL_ID,
};
pub use imfs::{Error as ImfsError, InMemoryFs, FIRST_FILE_ID};
pub use pattern::{has_all, has_group, has_name, has_tag, TagPattern, TagPredicate};

verus! {

/// What a store holds for one live file: its bytes and its tags, each tag once.
pub struct StoredFile {
    pub data: Seq<u8>,
    pub tags: Seq<TagView>,
}

/// The record a store keeps for a file added or rewritten with these bytes and tags.
pub open spec fn stored(data: Seq<u8>, tags: Seq<TagView>) -> StoredFile {
    StoredFile { data, tags: dedup(tags) }
}

/// Whether a search with the pattern over these files reports the ID.
pub open spec fn selected<P: TagPattern + ?Sized>(
    files: Map<u64, StoredFile>,
    pattern: &P,
    id: u64,
) -> bool {
    files.contains_key(id) && pattern.matches(files[id].tags)
}

/// Whether a list of IDs is in strictly increasing order.
pub open spec fn strictly_increasing(ids: Seq<FileId>) -> bool {
    forall|i: int, j: int| 0 <= i < j < ids.len() ==> ids[i]@ < ids[j]@
}

/// Whether a list of IDs holds exactly the IDs of the files that the pattern selects.
pub open spec fn search_result<P: TagPattern + ?Sized>(
    files: Map<u64, StoredFile>,
    pattern: &P,
    ids: Seq<FileId>,
) -> bool {
    &&& strictly_increasing(ids)
    &&& forall|id: u64|
        selected(files, pattern, id) <==> exists|i: int| 0 <= i < ids.len() && (#[trigger] ids[i])@
            == id
}

/// Combined info about a file, as a mathematical value.
pub struct FileInfoView {
    pub id: u64,
    pub data: Seq<u8>,
    pub tags: Seq<TagView>,
}

/// Combined info about a file
#[derive(Debug)]
pub struct FileInfo {
    id: FileId,
    tags: Vec<Tag>,
    data: Vec<u8>,
}

impl View for FileInfo {
    type V = FileInfoView;

    closed spec fn view(&self) -> FileInfoView {
        FileInfoView { id: self.id@, data: self.data@, tags: tag_views(self.tags@) }
    }
}

impl FileInfo {
    /// The info on a file with these bytes and these tags, each kept once.
    pub fn new(id: FileId, data: Vec<u8>, tags: &[Tag]) -> (r: FileInfo)
        ensures
            r@ == (FileInfoView { id: id@, data: data@, tags: dedup(tag_views(tags@)) }),
    {
        FileInfo { id, tags: dedup_tags(tags), data }
    }

    /// The info on a file whose tags are already free of repeats.
    pub(crate) fn from_parts(id: FileId, data: Vec<u8>, tags: Vec<Tag>) -> (r: FileInfo)
        ensures
            r@ == (FileInfoView { id: id@, data: data@, tags: tag_views(tags@) }),
    {
        FileInfo { id, tags, data }
    }

    /// Get the ID of this file
    pub fn id(&self) -> (r: FileId)
        ensures
            r@ == self@.id,
    {
        self.id
    }

    /// Get the tags associated with this file, each one once
    pub fn tags(&self) -> (r: &[Tag])
        ensures
            tag_views(r@) == self@.tags,
    {
        self.tags.as_slice()
    }

    /// Get the raw data associated with this file
    pub fn data(&self) -> (r: &[u8])
        ensures
            r@ == self@.data,
    {
        self.data.as_slice()
    }
}

/// A trait representing an implementation of a tag-based filesystem.
pub trait FileSystem {
    /// The error type to use with this filesystem.
    type Error;

    /// Add a new file with the given data and tags
    fn add_file(&mut self, data: &[u8], tags: Vec<Tag>) -> Result<FileId, Self::Error>;

    /// Edit an existing file, altering the data or tags
    fn edit_file(&mut self, id: FileId, data: Option<&[u8]>, tags: Option<Vec<Tag>>) -> Result<
        (),
        Self::Error,
    >;

    /// Remove an existing file
    fn remove_file(&mut self, id: FileId) -> Result<(), Self::Error>;

    /// Search for files matching a given tag pattern
    fn search_tags<P: TagPattern + ?Sized>(&self, pattern: &P) -> Result<Vec<FileId>, Self::Error>;

    /// Get info about an existing file
    fn get_info(&self, id: FileId) -> Result<FileInfo, Self::Error>;
}

} // verus!
