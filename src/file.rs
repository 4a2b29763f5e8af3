//! Identifiers, groups and tags: the values every other part of the store is built from.
use vstd::prelude::*;

verus! {

/// The largest identifier reserved for special use.
pub const LAST_SPECIAL_ID: u64 = 255;

/// Represents the ID of a file. Most numbers simply represent a unique file, however,
/// the values 0-255 are reserved for special usage.
#[derive(Debug, Copy, Clone, PartialEq, Eq, Structural, Hash, Ord, PartialOrd)]
pub struct FileId(u64);

impl View for FileId {
    type V = u64;

    closed spec fn view(&self) -> u64 {
        self.0
    }
}

/// Two IDs with the same value are the same ID.
pub proof fn lemma_file_id_view_injective(a: FileId, b: FileId)
    requires
        a@ == b@,
    ensures
        a == b,
{
}

impl FileId {
    /// Check if this ID represents a special file
    pub fn is_special(self) -> (r: bool)
        ensures
            r == (self@ <= LAST_SPECIAL_ID),
    {
        self.0 <= LAST_SPECIAL_ID
    }

    /// Check if this ID represents a standard file
    pub fn is_file(self) -> (r: bool)
        ensures
            r == (self@ > LAST_SPECIAL_ID),
    {
        self.0 > LAST_SPECIAL_ID
    }

    /// Create a `FileId` from a `u64`, without checking that the value is in the reserved range
    pub fn from_u64_unchecked(id: u64) -> (r: Self)
        ensures
            r@ == id,
            forall|f: FileId| #[trigger] f@ == id ==> f == r,
    {
        FileId(id)
    }

    /// Create a `u64` from a `FileId`, without checking that the value is in the reserved range
    pub fn into_u64_unchecked(self) -> (r: u64)
        ensures
            r == self@,
    {
        self.0
    }

    /// Create a `FileId` for a standard file; `None` when the value lies in the reserved range
    pub fn from_u64(val: u64) -> (r: Option<Self>)
        ensures
            r is Some <==> val > LAST_SPECIAL_ID,
            r matches Some(id) ==> id@ == val,
    {
        if val <= LAST_SPECIAL_ID {
            None
        } else {
            Some(FileId(val))
        }
    }

    /// The raw value of a standard file's ID; `None` when the ID is a special one
    pub fn into_u64(self) -> (r: Option<u64>)
        ensures
            r is Some <==> self@ > LAST_SPECIAL_ID,
            r matches Some(v) ==> v == self@,
    {
        if self.is_special() {
            None
        } else {
            Some(self.0)
        }
    }
}

/// The group of a tag, as a mathematical value.
pub enum GroupView {
    Default,
    Custom(Seq<char>),
}

/// A tag, as a mathematical value.
pub struct TagView {
    pub group: GroupView,
    pub name: Seq<char>,
}

/// The values of a sequence of tags.
pub open spec fn tag_views(tags: Seq<Tag>) -> Seq<TagView> {
    tags.map_values(|t: Tag| t@)
}

/// The list with each value kept at its first place and its later repeats left out.
pub open spec fn dedup(s: Seq<TagView>) -> Seq<TagView>
    decreases s.len(),
{
    if s.len() == 0 {
        s
    } else {
        let rest = dedup(s.drop_last());
        if rest.contains(s.last()) {
            rest
        } else {
            rest.push(s.last())
        }
    }
}

/// Leaving out repeats keeps every value and leaves none twice.
pub proof fn lemma_dedup(s: Seq<TagView>)
    ensures
        dedup(s).no_duplicates(),
        forall|t: TagView| dedup(s).contains(t) <==> s.contains(t),
        dedup(s).to_set() == s.to_set(),
    decreases s.len(),
{
    if s.len() > 0 {
        lemma_dedup(s.drop_last());
        let rest = dedup(s.drop_last());
        assert forall|t: TagView| s.contains(t) <==> (s.drop_last().contains(t) || t == s.last()) by {
            if s.contains(t) {
                let k = choose|k: int| 0 <= k < s.len() && s[k] == t;
                if k < s.len() - 1 {
                    assert(s.drop_last()[k] == t);
                }
            }
            if t == s.last() {
                assert(s[s.len() - 1] == t);
            }
            if s.drop_last().contains(t) {
                let k = choose|k: int| 0 <= k < s.len() - 1 && s.drop_last()[k] == t;
                assert(s[k] == t);
            }
        }
        if !rest.contains(s.last()) {
            assert forall|t: TagView| rest.push(s.last()).contains(t) <==> (rest.contains(t)
                || t == s.last()) by {
                if rest.push(s.last()).contains(t) {
                    let k = choose|k: int| 0 <= k < rest.len() + 1 && rest.push(s.last())[k] == t;
                    if k < rest.len() {
                        assert(rest[k] == t);
                    }
                }
                if rest.contains(t) {
                    let k = choose|k: int| 0 <= k < rest.len() && rest[k] == t;
                    assert(rest.push(s.last())[k] == t);
                }
                if t == s.last() {
                    assert(rest.push(s.last())[rest.len() as int] == t);
                }
            }
        }
    }
    assert(dedup(s).to_set() =~= s.to_set());
}

/// The tags with repeats left out, each kept at its first place.
pub fn dedup_tags(tags: &[Tag]) -> (r: Vec<Tag>)
    ensures
        tag_views(r@) == dedup(tag_views(tags@)),
{
    let ghost views = tag_views(tags@);
    let mut out: Vec<Tag> = Vec::new();
    let mut i: usize = 0;
    while i < tags.len()
        invariant
            i <= tags@.len(),
            views == tag_views(tags@),
            tag_views(out@) == dedup(views.take(i as int)),
        decreases tags@.len() - i,
    {
        let ghost before = out@;
        assert(views.take(i as int + 1).drop_last() =~= views.take(i as int));
        let present = crate::pattern::contains_tag(out.as_slice(), &tags[i]);
        if !present {
            out.push(tags[i].duplicate());
            assert(tag_views(out@) =~= tag_views(before).push(tags@[i as int]@));
        }
        i = i + 1;
    }
    assert(views.take(tags@.len() as int) =~= views);
    out
}

/// The group associated with a tag. Many tags will be part of the 'default'
/// group, but there can be any number of custom groups.
#[derive(Debug, Clone, Eq, Hash, Ord, PartialOrd)]
pub enum Group {
    /// The default group
    Default,
    /// A group with a custom name
    Custom(String),
}

impl View for Group {
    type V = GroupView;

    open spec fn view(&self) -> GroupView {
        match self {
            Group::Default => GroupView::Default,
            Group::Custom(s) => GroupView::Custom(s@),
        }
    }
}

impl PartialEq for Group {
    fn eq(&self, other: &Group) -> (r: bool) {
        match (self, other) {
            (Group::Default, Group::Default) => true,
            (Group::Custom(a), Group::Custom(b)) => a.eq(b),
            _ => false,
        }
    }
}

impl vstd::std_specs::cmp::PartialEqSpecImpl for Group {
    open spec fn obeys_eq_spec() -> bool {
        true
    }

    open spec fn eq_spec(&self, other: &Group) -> bool {
        self@ == other@
    }
}

impl Group {
    /// Get the custom group associated with a given string
    pub fn custom(group: &str) -> (r: Group)
        ensures
            r@ == GroupView::Custom(group@),
    {
        Group::Custom(group.to_owned())
    }

    /// The group a name denotes: the default group for the empty name, else a custom one
    pub fn from_name(name: &str) -> (r: Group)
        ensures
            name@.len() == 0 ==> r@ == GroupView::Default,
            name@.len() > 0 ==> r@ == GroupView::Custom(name@),
    {
        if name.is_empty() {
            Group::Default
        } else {
            Group::Custom(name.to_owned())
        }
    }

    /// Whether this group is the one a name denotes (see `from_name`)
    pub fn is_named(&self, name: &str) -> (r: bool)
        ensures
            r == (name@.len() == 0 && self@ == GroupView::Default || name@.len() > 0 && self@
                == GroupView::Custom(name@)),
    {
        match self {
            Group::Default => name.is_empty(),
            Group::Custom(s) => {
                if name.is_empty() {
                    false
                } else {
                    name.to_owned().eq(s)
                }
            },
        }
    }

    /// A copy of this group with the same value
    pub fn duplicate(&self) -> (r: Group)
        ensures
            r@ == self@,
    {
        match self {
            Group::Default => Group::Default,
            Group::Custom(s) => Group::Custom(s.clone()),
        }
    }
}

impl Default for Group {
    fn default() -> (r: Group)
        ensures
            r@ == GroupView::Default,
    {
        Group::Default
    }
}

/// A file tag, with a name and optionally a tag group
#[derive(Debug, Clone, Eq, Hash, Ord, PartialOrd)]
pub struct Tag {
    group: Group,
    name: String,
}

impl View for Tag {
    type V = TagView;

    closed spec fn view(&self) -> TagView {
        TagView { group: self.group@, name: self.name@ }
    }
}

impl PartialEq for Tag {
    fn eq(&self, other: &Tag) -> (r: bool) {
        self.group == other.group && self.name == other.name
    }
}

impl vstd::std_specs::cmp::PartialEqSpecImpl for Tag {
    open spec fn obeys_eq_spec() -> bool {
        true
    }

    open spec fn eq_spec(&self, other: &Tag) -> bool {
        self@ == other@
    }
}

impl Tag {
    /// Create a new tag with both a group and tag name
    pub fn new(group: Group, name: &str) -> (r: Tag)
        ensures
            r@ == (TagView { group: group@, name: name@ }),
    {
        Tag { group, name: name.to_owned() }
    }

    /// Create a tag with a name in the default group
    pub fn named(name: &str) -> (r: Tag)
        ensures
            r@ == (TagView { group: GroupView::Default, name: name@ }),
    {
        Tag { group: Group::Default, name: name.to_owned() }
    }

    /// Get the group for this tag
    pub fn group(&self) -> (r: &Group)
        ensures
            r@ == self@.group,
    {
        &self.group
    }

    /// Get the name of this tag
    pub fn name(&self) -> (r: &str)
        ensures
            r@ == self@.name,
    {
        self.name.as_str()
    }

    /// A copy of this tag with the same value
    pub fn duplicate(&self) -> (r: Tag)
        ensures
            r@ == self@,
    {
        Tag { group: self.group.duplicate(), name: self.name.clone() }
    }
}

} // verus!
