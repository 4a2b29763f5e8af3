use tbf::{Group, Tag, TagPattern, TagPredicate};

#[test]
fn test_tag() {
    let tag_a = Tag::named("a");

    assert!(tag_a.match_tags(&[Tag::named("a"), Tag::named("b")]));
    assert!(!tag_a.match_tags(&[Tag::named("b"), Tag::named("c")]));
}

#[test]
fn test_tag_slice() {
    let tag_slice = &[Tag::named("a"), Tag::named("b")];

    assert!(tag_slice.match_tags(&[
        Tag::named("b"),
        Tag::named("c"),
        Tag::named("d"),
        Tag::named("a"),
    ]));

    assert!(!tag_slice.match_tags(&[Tag::named("c"), Tag::named("ab"), Tag::named("d")]))
}

#[test]
fn test_pred_and() {
    let pred = TagPredicate::and(vec![Tag::named("a").into(), Tag::named("b").into()]);

    assert!(pred.match_tags(&[
        Tag::named("c"),
        Tag::named("b"),
        Tag::named("f"),
        Tag::named("a"),
    ]));
    assert!(!pred.match_tags(&[Tag::named("c"), Tag::named("f"), Tag::named("a")]));
}

#[test]
fn test_pred_or() {
    let pred = TagPredicate::or(vec![Tag::named("a").into(), Tag::named("b").into()]);

    assert!(pred.match_tags(&[Tag::named("a")]));
    assert!(pred.match_tags(&[Tag::named("b"), Tag::named("c")]));
    assert!(!pred.match_tags(&[Tag::named("c"), Tag::named("d")]));
}

#[test]
fn test_pred_not() {
    let pred = TagPredicate::not(Tag::named("a").into());

    assert!(pred.match_tags(&[Tag::named("b"), Tag::named("c")]));
    assert!(!pred.match_tags(&[Tag::named("a"), Tag::named("b")]));
}

#[test]
fn test_pred_group() {
    let pred = TagPredicate::group(Group::Default);

    assert!(pred.match_tags(&[Tag::named("a"), Tag::new(Group::custom("group"), "a")]));
    assert!(!pred.match_tags(&[
        Tag::new(Group::custom("group"), "a"),
        Tag::new(Group::custom("group"), "b")
    ]));
}

#[test]
fn test_pred_name() {
    let pred = TagPredicate::name("a");

    assert!(pred.match_tags(&[
        Tag::new(Group::custom("group"), "a"),
        Tag::new(Group::custom("group"), "b"),
    ]));
    assert!(pred.match_tags(&[Tag::named("a"), Tag::named("b")]));
    assert!(!pred.match_tags(&[Tag::new(Group::custom("group"), "b"), Tag::named("b")]));
}

#[test]
fn test_pred_tag() {
    let pred = TagPredicate::Tag(Tag::named("a"));

    assert!(pred.match_tags(&[Tag::named("c"), Tag::named("a")]));
    assert!(!pred.match_tags(&[Tag::named("c"), Tag::named("f")]));
}

#[test]
fn empty_and_holds_and_empty_or_does_not() {
    let and = TagPredicate::and(Vec::new());
    let or = TagPredicate::or(Vec::new());

    assert!(and.match_tags(&[]));
    assert!(and.match_tags(&[Tag::named("a")]));
    assert!(!or.match_tags(&[]));
    assert!(!or.match_tags(&[Tag::named("a")]));
}

#[test]
fn not_is_a_complement() {
    let sets: Vec<Vec<Tag>> = vec![
        vec![],
        vec![Tag::named("a")],
        vec![Tag::named("b"), Tag::new(Group::custom("g"), "a")],
        vec![Tag::new(Group::custom("g"), "x")],
    ];
    let make = |k: usize| match k {
        0 => TagPredicate::tag(Tag::named("a")),
        1 => TagPredicate::name("a"),
        2 => TagPredicate::group(Group::custom("g")),
        _ => TagPredicate::and(vec![TagPredicate::name("a"), TagPredicate::group(Group::Default)]),
    };
    for k in 0..4 {
        for s in &sets {
            let direct = make(k).match_tags(s);
            let negated = TagPredicate::not(make(k)).match_tags(s);
            assert_ne!(direct, negated);
        }
    }
}

#[test]
fn nested_predicates() {
    let pred = TagPredicate::or(vec![
        TagPredicate::and(vec![TagPredicate::name("x"), TagPredicate::not(TagPredicate::name("y"))]),
        TagPredicate::group(Group::custom("g")),
    ]);

    assert!(pred.match_tags(&[Tag::named("x")]));
    assert!(!pred.match_tags(&[Tag::named("x"), Tag::named("y")]));
    assert!(pred.match_tags(&[Tag::named("y"), Tag::new(Group::custom("g"), "z")]));
    assert!(!pred.match_tags(&[]));
}

#[test]
fn group_from_name_and_is_named() {
    assert_eq!(Group::from_name(""), Group::Default);
    assert_eq!(Group::from_name("g"), Group::custom("g"));
    assert!(Group::Default.is_named(""));
    assert!(!Group::Default.is_named("g"));
    assert!(Group::custom("g").is_named("g"));
    assert!(!Group::custom("").is_named(""));
    assert!(!Group::custom("g").is_named("h"));
}

#[test]
fn tag_accessors() {
    let t = Tag::new(Group::custom("g"), "b");
    assert_eq!(t.group(), &Group::custom("g"));
    assert_eq!(t.name(), "b");
    assert_eq!(Tag::named("a").group(), &Group::Default);
    assert_eq!(TagPredicate::from(Group::Default), TagPredicate::group(Group::Default));
}
