//! Properties that relate several operations of the stores and of the predicate engine.
use vstd::prelude::*;

use crate::codec::{lemma_tag_record_round_trip, lemma_u64_round_trip, tag_record, tags_fit, u64_le};
use crate::dfs::{
    found_in, opened_next_id, record_matches, record_tags, records_increasing, DirectoryBackedFs,
};
use crate::file::{dedup, lemma_dedup, FileId, Tag, TagView};
use crate::imfs::InMemoryFs;
use crate::pattern::{TagPattern, TagPredicate};
use crate::{selected, stored, StoredFile};

verus! {

/// A search by one tag reports a file just when the file was last stored with that tag
/// among its tags.
pub proof fn lemma_search_by_tag(
    files: Map<u64, StoredFile>,
    id: u64,
    data: Seq<u8>,
    tags: Seq<TagView>,
    t: Tag,
)
    ensures
        selected(files.insert(id, stored(data, tags)), &t, id) <==> tags.contains(t@),
{
    lemma_dedup(tags);
}

/// In a directory-backed store, the tag record written for a file meets a one-tag pattern
/// just when the file's tags hold that tag.
pub proof fn lemma_record_search_by_tag(tags: Seq<TagView>, t: Tag)
    requires
        tags_fit(tags),
    ensures
        record_matches(&t, tag_record(tags)) <==> tags.contains(t@),
{
    lemma_tag_record_round_trip(tags);
}

/// A search of a directory-backed store by one tag, over tag records with distinct IDs,
/// reports a file whose record was written with `tags` just when the tag is among them.
pub proof fn lemma_directory_search_by_tag(
    records: Seq<(FileId, Vec<u8>)>,
    k: int,
    tags: Seq<TagView>,
    t: Tag,
)
    requires
        0 <= k < records.len(),
        records[k].1@ == tag_record(tags),
        tags_fit(tags),
        records_increasing(records),
    ensures
        found_in(&t, records, records[k].0) <==> tags.contains(t@),
{
    lemma_tag_record_round_trip(tags);
    if found_in(&t, records, records[k].0) {
        let j = choose|j: int|
            0 <= j < records.len() && records[j].0 == records[k].0 && #[trigger] record_matches(
                &t,
                records[j].1@,
            );
        assert(j == k);
    }
    if tags.contains(t@) {
        assert(record_matches(&t, records[k].1@));
    }
}

/// What a store holds for a file just stored is the data given, and the tags given with
/// repeats left out: each of them once, and no other.
pub proof fn lemma_round_trip(files: Map<u64, StoredFile>, id: u64, data: Seq<u8>, tags: Seq<TagView>)
    ensures
        files.insert(id, stored(data, tags))[id].data == data,
        files.insert(id, stored(data, tags))[id].tags == dedup(tags),
        dedup(tags).no_duplicates(),
        dedup(tags).to_set() == tags.to_set(),
{
    lemma_dedup(tags);
}

/// In a directory-backed store, a tag record reads back as the tags it was written with.
pub proof fn lemma_record_round_trip(tags: Seq<TagView>)
    requires
        tags_fit(tags),
    ensures
        record_tags(tag_record(tags)) == Some(tags),
        dedup(tags).no_duplicates(),
        dedup(tags).to_set() == tags.to_set(),
{
    lemma_tag_record_round_trip(tags);
    lemma_dedup(tags);
}

/// Of two additions to one in-memory store, with any operations in between (none of which
/// lowers the next ID), the second hands out the larger ID.
pub proof fn lemma_memory_ids_increase(
    before_first: InMemoryFs,
    after_first: InMemoryFs,
    before_second: InMemoryFs,
    first: u64,
    second: u64,
)
    requires
        first == before_first.next_id(),
        after_first.next_id() == before_first.next_id() + 1,
        after_first.next_id() <= before_second.next_id(),
        second == before_second.next_id(),
    ensures
        first < second,
{
}

/// Of two allocations in one directory-backed store, with any operations in between (none
/// of which lowers the next ID), the second hands out the larger ID.
pub proof fn lemma_directory_ids_increase(
    before_first: DirectoryBackedFs,
    after_first: DirectoryBackedFs,
    before_second: DirectoryBackedFs,
    first: u64,
    second: u64,
)
    requires
        first == before_first.next_id(),
        after_first.next_id() == before_first.next_id() + 1,
        after_first.next_id() <= before_second.next_id(),
        second == before_second.next_id(),
    ensures
        first < second,
{
}

/// An `And` of no predicates holds of every list of tags, an `Or` of none of no list.
pub proof fn lemma_empty_and_or(preds: Vec<TagPredicate>, tags: Seq<TagView>)
    requires
        preds@.len() == 0,
    ensures
        TagPredicate::And(preds).holds(tags),
        !TagPredicate::Or(preds).holds(tags),
{
}

/// A `Not` holds of a list of tags just when its predicate does not.
pub proof fn lemma_not_complement(pred: TagPredicate, tags: Seq<TagView>)
    ensures
        TagPredicate::Not(Box::new(pred)).holds(tags) != pred.holds(tags),
{
}

/// A directory-backed store reopened on the state it saved goes on from the same ID.
pub proof fn lemma_counter_survives_reopen(next: u64)
    ensures
        opened_next_id(Some(u64_le(next))) == Some(next),
{
    lemma_u64_round_trip(next);
}

/// Once a file is removed, its ID names no file of the store.
pub proof fn lemma_removed_not_found(files: Map<u64, StoredFile>, id: u64)
    ensures
        !files.remove(id).contains_key(id),
{
}

} // verus!
