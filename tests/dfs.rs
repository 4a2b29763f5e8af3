use std::collections::BTreeSet;
use tbf::codec::{decode_tag_record, encode_tag_record, u64_to_le};
use tbf::names::{data_name, parse_tag_name, tag_name};
use tbf::{DfsError, DirectoryBackedFs, Error, ErrorKind, FileId, Group, Tag, TagPredicate};

#[test]
fn rw_file() {
    let mut dfs = DirectoryBackedFs::new("test_dfs".to_string(), None).unwrap();

    let id = dfs.allocate_id().unwrap();
    let record = DirectoryBackedFs::write_tags(&[
        Tag::named("a"),
        Tag::new(Group::custom("g"), "b"),
    ])
    .unwrap();

    let info = DirectoryBackedFs::file_info(id, Some(vec![0, 1, 2, 3]), Some(&record)).unwrap();

    assert_eq!(info.data(), &[0, 1, 2, 3]);
    let tags: BTreeSet<Tag> = info.tags().iter().cloned().collect();
    assert_eq!(tags, BTreeSet::from([Tag::named("a"), Tag::new(Group::custom("g"), "b")]));
}

#[test]
fn tag_record_layout() {
    let record =
        encode_tag_record(&[Tag::named("a"), Tag::new(Group::custom("g"), "b")]).unwrap();
    assert_eq!(
        record,
        vec![1, 0, 0, 1, 0, 0, 0, b'a', 1, 1, 1, 0, 0, 0, b'g', 1, 0, 0, 0, b'b']
    );
    assert_eq!(encode_tag_record(&[]).unwrap(), vec![1]);
}

#[test]
fn tag_record_round_trip() {
    let tags = vec![
        Tag::new(Group::custom("grüppe"), "名前"),
        Tag::named(""),
        Tag::named("x"),
        Tag::named("x"),
    ];
    let record = DirectoryBackedFs::write_tags(&tags).unwrap();
    assert_eq!(DirectoryBackedFs::read_tags(&record).unwrap(), tags);
}

#[test]
fn corrupt_records_are_refused() {
    assert!(matches!(decode_tag_record(&[]), None));
    assert!(matches!(decode_tag_record(&[2]), None));
    assert!(matches!(decode_tag_record(&[1, 0, 0, 1, 0, 0]), None));
    assert!(matches!(decode_tag_record(&[1, 0, 1, 0, 0, 0, 0]), None));
    assert!(matches!(decode_tag_record(&[1, 0, 0, 1, 0, 0, 0, 0xFF]), None));
    assert!(matches!(DirectoryBackedFs::read_tags(&[1, 7]), Err(DfsError::Corrupt)));
    assert!(matches!(
        DirectoryBackedFs::file_info(FileId::from_u64_unchecked(256), Some(vec![]), Some(&[0])),
        Err(DfsError::Corrupt)
    ));
}

#[test]
fn missing_files_are_not_found() {
    let id = FileId::from_u64_unchecked(256);
    assert!(matches!(
        DirectoryBackedFs::file_info(id, None, Some(&[1])),
        Err(DfsError::FileNotFound(x)) if x == id
    ));
    assert!(matches!(
        DirectoryBackedFs::file_info(id, Some(vec![1]), None),
        Err(DfsError::FileNotFound(x)) if x == id
    ));
    let dfs = DirectoryBackedFs::new("d".to_string(), None).unwrap();
    assert!(matches!(dfs.require_live(id, false), Err(DfsError::FileNotFound(x)) if x == id));
    assert!(dfs.require_live(id, true).is_ok());
}

#[test]
fn file_names() {
    let id = FileId::from_u64_unchecked(256);
    assert_eq!(tag_name(id), "0000000000000100.tag");
    assert_eq!(data_name(id), "0000000000000100.dat");
    let big = FileId::from_u64_unchecked(0xABCDEF0123456789);
    assert_eq!(tag_name(big), "ABCDEF0123456789.tag");
    assert_eq!(parse_tag_name("ABCDEF0123456789.tag"), Some(big));
    assert_eq!(parse_tag_name("0000000000000100.tag"), Some(id));
    assert_eq!(parse_tag_name("FFFFFFFFFFFFFFFF.tag"), Some(FileId::from_u64_unchecked(u64::MAX)));
    assert_eq!(parse_tag_name("abcdef0123456789.tag"), None);
    assert_eq!(parse_tag_name("0000000000000100.dat"), None);
    assert_eq!(parse_tag_name("000000000000100.tag"), None);
    assert_eq!(parse_tag_name("tbf.dat"), None);
    let dfs = DirectoryBackedFs::new("d".to_string(), None).unwrap();
    assert_eq!(dfs.file_name(id), "0000000000000100.dat");
    assert_eq!(dfs.tag_file_name(id), "0000000000000100.tag");
    assert_eq!(dfs.dir(), "d");
}

#[test]
fn directory_listing_keeps_tag_files_only() {
    let names: Vec<String> = vec![
        "tbf.dat".to_string(),
        "0000000000000101.dat".to_string(),
        "0000000000000101.tag".to_string(),
        "notes.txt".to_string(),
        "0000000000000100.tag".to_string(),
        "0000000000000101.tag".to_string(),
    ];
    assert_eq!(
        DirectoryBackedFs::tag_file_ids(&names),
        vec![FileId::from_u64_unchecked(256), FileId::from_u64_unchecked(257)]
    );
}

#[test]
fn search_over_records() {
    let sets = [
        vec![Tag::named("a"), Tag::named("b")],
        vec![Tag::named("a")],
        vec![Tag::named("b")],
        vec![Tag::named("c"), Tag::named("a")],
    ];
    let records: Vec<(FileId, Vec<u8>)> = sets
        .iter()
        .enumerate()
        .map(|(i, t)| {
            (FileId::from_u64_unchecked(256 + i as u64), DirectoryBackedFs::write_tags(t).unwrap())
        })
        .collect();
    let ids = |v: &[u64]| v.iter().map(|x| FileId::from_u64_unchecked(*x)).collect::<Vec<_>>();

    assert_eq!(
        DirectoryBackedFs::search_records(&Tag::named("a"), &records).unwrap(),
        ids(&[256, 257, 259])
    );
    assert_eq!(
        DirectoryBackedFs::search_records(&Tag::named("b"), &records).unwrap(),
        ids(&[256, 258])
    );
    assert_eq!(
        DirectoryBackedFs::search_records(&TagPredicate::name("c"), &records).unwrap(),
        ids(&[259])
    );
    let mut broken = records;
    broken.push((FileId::from_u64_unchecked(300), vec![1, 0]));
    assert!(matches!(
        DirectoryBackedFs::search_records(&Tag::named("a"), &broken),
        Err(DfsError::Corrupt)
    ));
}

#[test]
fn counter_survives_reopen() {
    let saved = u64_to_le(300);
    assert_eq!(saved, vec![44, 1, 0, 0, 0, 0, 0, 0]);
    let mut dfs = DirectoryBackedFs::new("d".to_string(), Some(&saved)).unwrap();
    assert_eq!(dfs.allocate_id().unwrap(), FileId::from_u64_unchecked(300));
    assert_eq!(dfs.saved_state(), u64_to_le(301));

    let fresh = DirectoryBackedFs::new("d".to_string(), None).unwrap();
    assert_eq!(fresh.current_id(), 256);
    let reopened = DirectoryBackedFs::new("d".to_string(), Some(&fresh.saved_state())).unwrap();
    assert_eq!(reopened.current_id(), 256);

    let short = DirectoryBackedFs::new("d".to_string(), Some(&[1, 2, 3]));
    assert!(matches!(short, Err(DfsError::IoError(_))));
    assert_eq!(short.err().unwrap().generic_kind(), ErrorKind::Source);
    assert!(matches!(
        DirectoryBackedFs::new("d".to_string(), Some(&u64_to_le(255))),
        Err(DfsError::Corrupt)
    ));
    assert_eq!(
        DirectoryBackedFs::new("d".to_string(), Some(&u64_to_le(256))).unwrap().current_id(),
        256
    );
}

#[test]
fn allocation_increases_and_stops_at_the_end() {
    let mut dfs = DirectoryBackedFs::new("d".to_string(), None).unwrap();
    let a = dfs.allocate_id().unwrap();
    let b = dfs.allocate_id().unwrap();
    assert!(a < b);

    let mut last = DirectoryBackedFs::new("d".to_string(), Some(&u64_to_le(u64::MAX))).unwrap();
    assert!(matches!(last.allocate_id(), Err(DfsError::NoFreeId)));
    assert_eq!(last.current_id(), u64::MAX);
}

#[test]
fn directory_check_and_error_kinds() {
    let dfs = DirectoryBackedFs::new("d".to_string(), None).unwrap();
    assert!(dfs.assert_dir(true).is_ok());
    let err = dfs.assert_dir(false).unwrap_err();
    assert!(matches!(err, DfsError::IoError(_)));
    assert_eq!(err.generic_kind(), ErrorKind::Source);
    let id = FileId::from_u64_unchecked(256);
    assert_eq!(DfsError::file_not_found(id).generic_kind(), ErrorKind::FileNotFound(id));
    assert_eq!(DfsError::Poisoned.generic_kind(), ErrorKind::State);
    assert_eq!(DfsError::Corrupt.generic_kind(), ErrorKind::Other);
}
