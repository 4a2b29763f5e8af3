//! Patterns over a file's tags: single tags, lists of tags and boolean predicate trees.
use vstd::prelude::*;

use crate::file::{tag_views, Group, GroupView, Tag, TagView};
use crate::sealed::Sealed;

verus! {

impl Sealed for Tag {}

impl Sealed for [Tag] {}

impl<const N: usize> Sealed for [Tag; N] {}

impl Sealed for TagPredicate {}

/// Any type that can be used to match a file's tags on
pub trait TagPattern: Sealed {
    /// Whether the pattern holds of the given tag values.
    spec fn matches(&self, tags: Seq<TagView>) -> bool;

    /// Match this item against a list of tags
    fn match_tags(&self, tags: &[Tag]) -> (r: bool)
        ensures
            r == self.matches(tag_views(tags@)),
    ;
}

/// Whether some tag of the list belongs to the group.
pub open spec fn has_group(tags: Seq<TagView>, g: GroupView) -> bool {
    exists|i: int| 0 <= i < tags.len() && #[trigger] tags[i].group == g
}

/// Whether some tag of the list has the name, in whatever group.
pub open spec fn has_name(tags: Seq<TagView>, n: Seq<char>) -> bool {
    exists|i: int| 0 <= i < tags.len() && #[trigger] tags[i].name == n
}

/// Whether the list holds the tag.
pub open spec fn has_tag(tags: Seq<TagView>, t: TagView) -> bool {
    tags.contains(t)
}

/// Whether the list holds every tag of the pattern.
pub open spec fn has_all(tags: Seq<TagView>, pattern: Seq<TagView>) -> bool {
    forall|i: int| 0 <= i < pattern.len() ==> has_tag(tags, #[trigger] pattern[i])
}

/// Whether the tag stands in the list.
pub(crate) fn contains_tag(tags: &[Tag], tag: &Tag) -> (r: bool)
    ensures
        r == has_tag(tag_views(tags@), tag@),
{
    let ghost views = tag_views(tags@);
    let mut i: usize = 0;
    while i < tags.len()
        invariant
            i <= tags@.len(),
            views == tag_views(tags@),
            forall|j: int| 0 <= j < i ==> views[j] != tag@,
        decreases tags@.len() - i,
    {
        if tags[i] == *tag {
            assert(views[i as int] == tag@);
            return true;
        }
        i = i + 1;
    }
    assert forall|k: int| 0 <= k < views.len() implies views[k] != tag@ by {}
    false
}

impl TagPattern for Tag {
    open spec fn matches(&self, tags: Seq<TagView>) -> bool {
        has_tag(tags, self@)
    }

    fn match_tags(&self, tags: &[Tag]) -> (r: bool) {
        contains_tag(tags, self)
    }
}

impl TagPattern for [Tag] {
    open spec fn matches(&self, tags: Seq<TagView>) -> bool {
        has_all(tags, tag_views(self@))
    }

    fn match_tags(&self, tags: &[Tag]) -> (r: bool) {
        let ghost pattern = tag_views(self@);
        let mut i: usize = 0;
        while i < self.len()
            invariant
                i <= self@.len(),
                pattern == tag_views(self@),
                forall|j: int| 0 <= j < i ==> has_tag(tag_views(tags@), #[trigger] pattern[j]),
            decreases self@.len() - i,
        {
            if !contains_tag(tags, &self[i]) {
                assert(pattern[i as int] == self@[i as int]@);
                return false;
            }
            i = i + 1;
        }
        true
    }
}

impl<const N: usize> TagPattern for [Tag; N] {
    open spec fn matches(&self, tags: Seq<TagView>) -> bool {
        has_all(tags, tag_views(self@))
    }

    fn match_tags(&self, tags: &[Tag]) -> (r: bool) {
        self.as_slice().match_tags(tags)
    }
}

/// Complex support for matching binary expressions against tags
#[derive(Debug, PartialEq)]
pub enum TagPredicate {
    /// And predicates together
    And(Vec<TagPredicate>),
    /// Or predicates together
    Or(Vec<TagPredicate>),
    /// Inverse a predicate
    Not(Box<TagPredicate>),
    /// Match just the group of a tag
    Group(Group),
    /// Match just the name of a tag
    Name(String),
    /// Match a tag exactly
    Tag(Tag),
}

impl TagPredicate {
    /// Whether the predicate holds of the given tag values. An `And` of no predicates
    /// holds of every list, an `Or` of none of no list.
    pub open spec fn holds(&self, tags: Seq<TagView>) -> bool
        decreases self,
    {
        match self {
            TagPredicate::And(preds) => forall|i: int|
                0 <= i < preds@.len() ==> (#[trigger] preds@[i]).holds(tags),
            TagPredicate::Or(preds) => exists|i: int|
                0 <= i < preds@.len() && (#[trigger] preds@[i]).holds(tags),
            TagPredicate::Not(pred) => !pred.holds(tags),
            TagPredicate::Group(g) => has_group(tags, g@),
            TagPredicate::Name(n) => has_name(tags, n@),
            TagPredicate::Tag(t) => has_tag(tags, t@),
        }
    }

    /// Create an and predicate from a list of predicates
    pub fn and(preds: Vec<TagPredicate>) -> (r: TagPredicate)
        ensures
            r == TagPredicate::And(preds),
    {
        TagPredicate::And(preds)
    }

    /// Create an or predicate from a list of predicates
    pub fn or(preds: Vec<TagPredicate>) -> (r: TagPredicate)
        ensures
            r == TagPredicate::Or(preds),
    {
        TagPredicate::Or(preds)
    }

    /// Create a not predicate from some other predicate
    pub fn not(pred: TagPredicate) -> (r: TagPredicate)
        ensures
            r == TagPredicate::Not(Box::new(pred)),
    {
        TagPredicate::Not(Box::new(pred))
    }

    /// Create a predicate for a group
    pub fn group(group: Group) -> (r: TagPredicate)
        ensures
            r == TagPredicate::Group(group),
    {
        TagPredicate::Group(group)
    }

    /// Create a predicate for a name
    pub fn name(name: &str) -> (r: TagPredicate)
        ensures
            r matches TagPredicate::Name(n) && n@ == name@,
    {
        TagPredicate::Name(name.to_owned())
    }

    /// Create a predicate to match a tag exactly
    pub fn tag(tag: Tag) -> (r: TagPredicate)
        ensures
            r == TagPredicate::Tag(tag),
    {
        TagPredicate::Tag(tag)
    }

    fn eval(&self, tags: &[Tag]) -> (r: bool)
        ensures
            r == self.holds(tag_views(tags@)),
        decreases self,
    {
        let ghost views = tag_views(tags@);
        match self {
            TagPredicate::And(preds) => {
                let mut i: usize = 0;
                while i < preds.len()
                    invariant
                        i <= preds@.len(),
                        views == tag_views(tags@),
                        *self == TagPredicate::And(*preds),
                        forall|j: int| 0 <= j < i ==> (#[trigger] preds@[j]).holds(views),
                    decreases preds@.len() - i,
                {
                    proof {
                        vstd::std_specs::vec::axiom_vec_index_decreases(*preds, i as int);
                        assert(decreases_to!(*self => (*self)->And_0));
                        assert(decreases_to!(*preds => preds@));
                    }
                    if !preds[i].eval(tags) {
                        assert(!preds@[i as int].holds(views));
                        assert(!self.holds(views));
                        return false;
                    }
                    i = i + 1;
                }
                true
            },
            TagPredicate::Or(preds) => {
                let mut i: usize = 0;
                while i < preds.len()
                    invariant
                        i <= preds@.len(),
                        views == tag_views(tags@),
                        *self == TagPredicate::Or(*preds),
                        forall|j: int| 0 <= j < i ==> !(#[trigger] preds@[j]).holds(views),
                    decreases preds@.len() - i,
                {
                    proof {
                        vstd::std_specs::vec::axiom_vec_index_decreases(*preds, i as int);
                        assert(decreases_to!(*self => (*self)->Or_0));
                        assert(decreases_to!(*preds => preds@));
                    }
                    if preds[i].eval(tags) {
                        assert(preds@[i as int].holds(views));
                        assert(self.holds(views));
                        return true;
                    }
                    i = i + 1;
                }
                false
            },
            TagPredicate::Not(pred) => !pred.eval(tags),
            TagPredicate::Group(g) => {
                let mut i: usize = 0;
                while i < tags.len()
                    invariant
                        i <= tags@.len(),
                        views == tag_views(tags@),
                        *self == TagPredicate::Group(*g),
                        forall|j: int| 0 <= j < i ==> (#[trigger] views[j]).group != g@,
                    decreases tags@.len() - i,
                {
                    if *tags[i].group() == *g {
                        assert(views[i as int].group == g@);
                        assert(has_group(views, g@));
                        return true;
                    }
                    i = i + 1;
                }
                false
            },
            TagPredicate::Name(n) => {
                let mut i: usize = 0;
                while i < tags.len()
                    invariant
                        i <= tags@.len(),
                        views == tag_views(tags@),
                        *self == TagPredicate::Name(*n),
                        forall|j: int| 0 <= j < i ==> (#[trigger] views[j]).name != n@,
                    decreases tags@.len() - i,
                {
                    if tags[i].name().to_owned().eq(n) {
                        assert(views[i as int].name == n@);
                        assert(has_name(views, n@));
                        return true;
                    }
                    i = i + 1;
                }
                false
            },
            TagPredicate::Tag(t) => contains_tag(tags, t),
        }
    }
}

impl TagPattern for TagPredicate {
    open spec fn matches(&self, tags: Seq<TagView>) -> bool {
        self.holds(tags)
    }

    fn match_tags(&self, tags: &[Tag]) -> (r: bool) {
        self.eval(tags)
    }
}

impl From<Tag> for TagPredicate {
    fn from(tag: Tag) -> (r: TagPredicate) {
        TagPredicate::Tag(tag)
    }
}

impl vstd::std_specs::convert::FromSpecImpl<Tag> for TagPredicate {
    open spec fn obeys_from_spec() -> bool {
        true
    }

    open spec fn from_spec(tag: Tag) -> TagPredicate {
        TagPredicate::Tag(tag)
    }
}

impl From<Group> for TagPredicate {
    fn from(group: Group) -> (r: TagPredicate) {
        TagPredicate::Group(group)
    }
}

impl vstd::std_specs::convert::FromSpecImpl<Group> for TagPredicate {
    open spec fn obeys_from_spec() -> bool {
        true
    }

    open spec fn from_spec(group: Group) -> TagPredicate {
        TagPredicate::Group(group)
    }
}

} // verus!
