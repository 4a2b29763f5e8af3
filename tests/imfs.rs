use tbf::{ErrorKind, FileId, FileSystem, Group, ImfsError, InMemoryFs, Tag, TagPredicate};
use tbf::Error;

#[test]
fn test_add_file() {
    let mut ifs = InMemoryFs::new();

    let id = ifs.add_file(&[0, 1, 2], vec![]).unwrap();

    assert_eq!(id, FileId::from_u64_unchecked(256));
}

#[test]
fn test_search_files() {
    let mut ifs = InMemoryFs::new();

    let first = ifs.add_file(&[0, 1, 2], vec![Tag::named("a"), Tag::named("b")]).unwrap();
    let second = ifs.add_file(&[0, 1, 2], vec![Tag::named("a")]).unwrap();
    let third = ifs.add_file(&[0, 1, 2], vec![Tag::named("b")]).unwrap();
    let fourth = ifs.add_file(&[0, 1, 2], vec![Tag::named("c"), Tag::named("a")]).unwrap();

    let items = ifs.search_tags(&Tag::named("a")).unwrap();

    assert!(items.contains(&first) && items.contains(&second) && items.contains(&fourth));
    assert!(!items.contains(&third));

    let items = ifs.search_tags(&Tag::named("b")).unwrap();

    assert!(items.contains(&first) && items.contains(&third));
    assert!(!items.contains(&second) && !items.contains(&fourth));
}

#[test]
fn search_results_are_exact_and_ordered() {
    let mut ifs = InMemoryFs::new();
    let first = ifs.add_file(&[1], vec![Tag::named("a"), Tag::named("b")]).unwrap();
    let second = ifs.add_file(&[2], vec![Tag::named("a")]).unwrap();
    let third = ifs.add_file(&[3], vec![Tag::named("b")]).unwrap();
    let fourth = ifs.add_file(&[4], vec![Tag::named("c"), Tag::named("a")]).unwrap();

    assert_eq!(ifs.search_tags(&Tag::named("a")).unwrap(), vec![first, second, fourth]);
    assert_eq!(ifs.search_tags(&Tag::named("b")).unwrap(), vec![first, third]);
    assert_eq!(ifs.search_tags(&Tag::named("z")).unwrap(), Vec::<FileId>::new());
    let both: &[Tag] = &[Tag::named("a"), Tag::named("b")];
    assert_eq!(ifs.search_tags(both).unwrap(), vec![first]);
    let not_a = TagPredicate::not(TagPredicate::tag(Tag::named("a")));
    assert_eq!(ifs.search_tags(&not_a).unwrap(), vec![third]);
}

#[test]
fn get_info_round_trip() {
    let mut ifs = InMemoryFs::new();
    let id = ifs
        .add_file(
            &[0, 1, 2, 3],
            vec![Tag::named("a"), Tag::new(Group::custom("g"), "b"), Tag::named("a")],
        )
        .unwrap();
    let info = ifs.get_info(id).unwrap();

    assert_eq!(info.id(), id);
    assert_eq!(info.data(), &[0, 1, 2, 3]);
    assert_eq!(info.tags(), &[Tag::named("a"), Tag::new(Group::custom("g"), "b")]);
}

#[test]
fn ids_strictly_increase() {
    let mut ifs = InMemoryFs::default();
    let a = ifs.add_file(&[], vec![]).unwrap();
    ifs.remove_file(a).unwrap();
    let b = ifs.add_file(&[], vec![]).unwrap();
    let c = ifs.add_file(&[], vec![]).unwrap();

    assert_eq!(a.into_u64_unchecked(), 256);
    assert!(a < b && b < c);
    assert_eq!(b.into_u64_unchecked(), 257);
}

#[test]
fn remove_then_get_info_fails() {
    let mut ifs = InMemoryFs::new();
    let id = ifs.add_file(&[7], vec![Tag::named("a")]).unwrap();
    ifs.remove_file(id).unwrap();

    assert!(matches!(ifs.get_info(id), Err(ImfsError::FileNotFound(x)) if x == id));
    assert!(matches!(ifs.remove_file(id), Err(ImfsError::FileNotFound(x)) if x == id));
    assert_eq!(ifs.search_tags(&Tag::named("a")).unwrap(), Vec::<FileId>::new());
}

#[test]
fn unknown_ids_are_not_found() {
    let mut ifs = InMemoryFs::new();
    let special = FileId::from_u64_unchecked(3);
    let later = FileId::from_u64_unchecked(900);

    assert!(matches!(ifs.get_info(special), Err(ImfsError::FileNotFound(_))));
    assert!(matches!(ifs.get_info(later), Err(ImfsError::FileNotFound(_))));
    assert!(matches!(
        ifs.edit_file(later, Some(&[1][..]), None),
        Err(ImfsError::FileNotFound(_))
    ));
}

#[test]
fn edit_changes_only_what_is_given() {
    let mut ifs = InMemoryFs::new();
    let id = ifs.add_file(&[1, 2], vec![Tag::named("a")]).unwrap();

    ifs.edit_file(id, Some(&[9][..]), None).unwrap();
    let info = ifs.get_info(id).unwrap();
    assert_eq!(info.data(), &[9]);
    assert_eq!(info.tags(), &[Tag::named("a")]);

    ifs.edit_file(id, None, Some(vec![Tag::named("b"), Tag::named("b")])).unwrap();
    let info = ifs.get_info(id).unwrap();
    assert_eq!(info.data(), &[9]);
    assert_eq!(info.tags(), &[Tag::named("b")]);
    assert_eq!(ifs.search_tags(&Tag::named("a")).unwrap(), Vec::<FileId>::new());
    assert_eq!(ifs.search_tags(&Tag::named("b")).unwrap(), vec![id]);
}

#[test]
fn memory_errors_have_kinds() {
    let id = FileId::from_u64_unchecked(300);
    assert_eq!(ImfsError::file_not_found(id).generic_kind(), ErrorKind::FileNotFound(id));
    assert_eq!(ImfsError::Poisoned.generic_kind(), ErrorKind::State);
    assert_eq!(ImfsError::NoFreeId.generic_kind(), ErrorKind::Other);
}

#[test]
fn file_ids_and_reserved_range() {
    assert!(FileId::from_u64_unchecked(255).is_special());
    assert!(!FileId::from_u64_unchecked(255).is_file());
    assert!(FileId::from_u64_unchecked(256).is_file());
    assert_eq!(FileId::from_u64(255), None);
    assert_eq!(FileId::from_u64(256), Some(FileId::from_u64_unchecked(256)));
    assert_eq!(FileId::from_u64_unchecked(0).into_u64(), None);
    assert_eq!(FileId::from_u64_unchecked(1000).into_u64(), Some(1000));
}

#[test]
fn repeats_are_dropped_in_first_place_order() {
    let tags = [Tag::named("b"), Tag::named("a"), Tag::named("b"), Tag::new(Group::custom("g"), "a")];
    assert_eq!(
        tbf::dedup_tags(&tags),
        vec![Tag::named("b"), Tag::named("a"), Tag::new(Group::custom("g"), "a")]
    );
    let info = tbf::FileInfo::new(FileId::from_u64_unchecked(400), vec![5], &tags);
    assert_eq!(info.tags().len(), 3);
    assert_eq!(info.id(), FileId::from_u64_unchecked(400));
}

#[test]
fn raw_conversions_round_trip() {
    for raw in [0u64, 255, 256, u64::MAX] {
        let f = FileId::from_u64_unchecked(raw);
        assert_eq!(f.into_u64_unchecked(), raw);
        assert_eq!(FileId::from_u64_unchecked(f.into_u64_unchecked()), f);
    }
}
