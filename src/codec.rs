//! Byte encodings of the directory-backed store: little-endian integers and tag records.
use vstd::prelude::*;
use vstd::slice::{slice_subrange, slice_to_vec};
use vstd::utf8::{decode_utf8, encode_utf8, encode_utf8_decode_utf8, encode_utf8_valid_utf8, valid_utf8};

use crate::file::{tag_views, Group, GroupView, Tag, TagView};

verus! {

/// The first byte of every tag record: the version of the layout that follows.
pub const TAG_FORMAT_VERSION: u8 = 1;

/// The four little-endian bytes of a `u32`.
pub open spec fn u32_le(n: u32) -> Seq<u8> {
    seq![n as u8, (n >> 8u32) as u8, (n >> 16u32) as u8, (n >> 24u32) as u8]
}

/// The `u32` whose little-endian bytes are the first four of `b`.
pub open spec fn le_to_u32(b: Seq<u8>) -> u32
    recommends
        b.len() >= 4,
{
    (b[0] as u32) | ((b[1] as u32) << 8u32) | ((b[2] as u32) << 16u32) | ((b[3] as u32) << 24u32)
}

/// The eight little-endian bytes of a `u64`.
pub open spec fn u64_le(n: u64) -> Seq<u8> {
    seq![
        n as u8,
        (n >> 8u64) as u8,
        (n >> 16u64) as u8,
        (n >> 24u64) as u8,
        (n >> 32u64) as u8,
        (n >> 40u64) as u8,
        (n >> 48u64) as u8,
        (n >> 56u64) as u8,
    ]
}

/// The `u64` whose little-endian bytes are the first eight of `b`.
pub open spec fn le_to_u64(b: Seq<u8>) -> u64
    recommends
        b.len() >= 8,
{
    (b[0] as u64) | ((b[1] as u64) << 8u64) | ((b[2] as u64) << 16u64) | ((b[3] as u64) << 24u64)
        | ((b[4] as u64) << 32u64) | ((b[5] as u64) << 40u64) | ((b[6] as u64) << 48u64) | ((
    b[7] as u64) << 56u64)
}

/// Reading back the bytes of a `u32` gives the number.
pub proof fn lemma_u32_round_trip(n: u32)
    ensures
        le_to_u32(u32_le(n)) == n,
{
    let b = u32_le(n);
    let (b0, b1, b2, b3) = (b[0], b[1], b[2], b[3]);
    assert(b0 == n as u8 && b1 == (n >> 8u32) as u8 && b2 == (n >> 16u32) as u8 && b3 == (n
        >> 24u32) as u8);
    assert((b0 as u32) | ((b1 as u32) << 8u32) | ((b2 as u32) << 16u32) | ((b3 as u32) << 24u32)
        == n) by (bit_vector)
        requires
            b0 == n as u8,
            b1 == (n >> 8u32) as u8,
            b2 == (n >> 16u32) as u8,
            b3 == (n >> 24u32) as u8,
    ;
}

/// Reading back the bytes of a `u64` gives the number.
pub proof fn lemma_u64_round_trip(n: u64)
    ensures
        le_to_u64(u64_le(n)) == n,
{
    let b = u64_le(n);
    let (b0, b1, b2, b3, b4, b5, b6, b7) = (b[0], b[1], b[2], b[3], b[4], b[5], b[6], b[7]);
    assert((b0 as u64) | ((b1 as u64) << 8u64) | ((b2 as u64) << 16u64) | ((b3 as u64) << 24u64)
        | ((b4 as u64) << 32u64) | ((b5 as u64) << 40u64) | ((b6 as u64) << 48u64) | ((b7 as u64)
        << 56u64) == n) by (bit_vector)
        requires
            b0 == n as u8,
            b1 == (n >> 8u64) as u8,
            b2 == (n >> 16u64) as u8,
            b3 == (n >> 24u64) as u8,
            b4 == (n >> 32u64) as u8,
            b5 == (n >> 40u64) as u8,
            b6 == (n >> 48u64) as u8,
            b7 == (n >> 56u64) as u8,
    ;
}

/// Appends the little-endian bytes of a `u32`.
fn put_u32(out: &mut Vec<u8>, n: u32)
    ensures
        final(out)@ == old(out)@ + u32_le(n),
{
    out.push(n as u8);
    out.push((n >> 8u32) as u8);
    out.push((n >> 16u32) as u8);
    out.push((n >> 24u32) as u8);
    assert(final(out)@ =~= old(out)@ + u32_le(n));
}

/// The `u32` stored little-endian at `at`.
fn get_u32(b: &[u8], at: usize) -> (r: u32)
    requires
        at + 4 <= b@.len(),
    ensures
        r == le_to_u32(b@.subrange(at as int, at + 4)),
{
    (b[at] as u32) | ((b[at + 1] as u32) << 8u32) | ((b[at + 2] as u32) << 16u32) | ((b[at
        + 3] as u32) << 24u32)
}

/// The little-endian bytes of a `u64`.
pub fn u64_to_le(n: u64) -> (r: Vec<u8>)
    ensures
        r@ == u64_le(n),
{
    let mut out: Vec<u8> = Vec::new();
    out.push(n as u8);
    out.push((n >> 8u64) as u8);
    out.push((n >> 16u64) as u8);
    out.push((n >> 24u64) as u8);
    out.push((n >> 32u64) as u8);
    out.push((n >> 40u64) as u8);
    out.push((n >> 48u64) as u8);
    out.push((n >> 56u64) as u8);
    assert(out@ =~= u64_le(n));
    out
}

/// The `u64` held little-endian in the first eight bytes; `None` when there are fewer.
pub fn le_to_u64_prefix(b: &[u8]) -> (r: Option<u64>)
    ensures
        r is Some <==> b@.len() >= 8,
        r matches Some(n) ==> n == le_to_u64(b@),
{
    if b.len() < 8 {
        return None;
    }
    Some(
        (b[0] as u64) | ((b[1] as u64) << 8u64) | ((b[2] as u64) << 16u64) | ((b[3] as u64)
            << 24u64) | ((b[4] as u64) << 32u64) | ((b[5] as u64) << 40u64) | ((b[6] as u64)
            << 48u64) | ((b[7] as u64) << 56u64),
    )
}

// ---- tag records ----

/// Whether the UTF-8 form of a string is short enough for a four-byte length.
pub open spec fn fits(s: Seq<char>) -> bool {
    encode_utf8(s).len() <= u32::MAX
}

/// Whether every string of the tag fits a four-byte length.
pub open spec fn tag_fits(t: TagView) -> bool {
    &&& fits(t.name)
    &&& t.group matches GroupView::Custom(g) ==> fits(g)
}

/// Whether every string of every tag fits a four-byte length.
pub open spec fn tags_fit(ts: Seq<TagView>) -> bool {
    forall|i: int| 0 <= i < ts.len() ==> tag_fits(#[trigger] ts[i])
}

/// A string as stored: its UTF-8 length in four little-endian bytes, then its UTF-8 bytes.
pub open spec fn field(s: Seq<char>) -> Seq<u8> {
    u32_le(encode_utf8(s).len() as u32) + encode_utf8(s)
}

/// One tag as stored: a flag byte and a second byte, both 1 for a custom group and both 0
/// for the default one, then the custom group's name, then the tag's name.
pub open spec fn encode_tag(t: TagView) -> Seq<u8> {
    match t.group {
        GroupView::Default => seq![0u8, 0u8] + field(t.name),
        GroupView::Custom(g) => seq![1u8, 1u8] + field(g) + field(t.name),
    }
}

/// The tags as stored, one after the other in the order given, with no count.
pub open spec fn encode_tags(ts: Seq<TagView>) -> Seq<u8>
    decreases ts.len(),
{
    if ts.len() == 0 {
        Seq::empty()
    } else {
        encode_tag(ts[0]) + encode_tags(ts.drop_first())
    }
}

/// A whole tag record: the format version, then the tags.
pub open spec fn tag_record(ts: Seq<TagView>) -> Seq<u8> {
    seq![TAG_FORMAT_VERSION] + encode_tags(ts)
}

/// The string stored at the start of `b`, and how many bytes it takes.
pub open spec fn parse_field(b: Seq<u8>) -> Option<(Seq<char>, int)> {
    if b.len() < 4 {
        None
    } else {
        let n = le_to_u32(b) as int;
        if b.len() < 4 + n {
            None
        } else if valid_utf8(b.subrange(4, 4 + n)) {
            Some((decode_utf8(b.subrange(4, 4 + n)), 4 + n))
        } else {
            None
        }
    }
}

/// The tag stored at the start of `b`, and how many bytes it takes.
pub open spec fn parse_tag(b: Seq<u8>) -> Option<(TagView, int)> {
    if b.len() < 2 {
        None
    } else if b[0] == 0 && b[1] == 0 {
        match parse_field(b.skip(2)) {
            Some((name, k)) => Some((TagView { group: GroupView::Default, name }, 2 + k)),
            None => None,
        }
    } else if b[0] == 1 && b[1] == 1 {
        match parse_field(b.skip(2)) {
            Some((g, k)) => match parse_field(b.skip(2 + k)) {
                Some((name, m)) => Some((TagView { group: GroupView::Custom(g), name }, 2 + k + m)),
                None => None,
            },
            None => None,
        }
    } else {
        None
    }
}

/// The tags stored in `b`, read until its end; `None` when a tag is cut off or malformed.
pub open spec fn parse_tags(b: Seq<u8>) -> Option<Seq<TagView>>
    decreases b.len(),
{
    if b.len() == 0 {
        Some(Seq::empty())
    } else {
        match parse_tag(b) {
            Some((t, k)) => if 0 < k <= b.len() {
                match parse_tags(b.skip(k)) {
                    Some(rest) => Some(seq![t] + rest),
                    None => None,
                }
            } else {
                None
            },
            None => None,
        }
    }
}

/// The tags of a whole record; `None` when the version byte is missing or wrong, or the
/// rest does not parse.
pub open spec fn parse_tag_record(b: Seq<u8>) -> Option<Seq<TagView>> {
    if b.len() >= 1 && b[0] == TAG_FORMAT_VERSION {
        parse_tags(b.skip(1))
    } else {
        None
    }
}

/// Reading a stored string back gives the string and its whole length.
pub proof fn lemma_parse_field(s: Seq<char>, rest: Seq<u8>)
    requires
        fits(s),
    ensures
        parse_field(field(s) + rest) == Some((s, field(s).len() as int)),
{
    let e = encode_utf8(s);
    let b = field(s) + rest;
    let n = e.len() as u32;
    lemma_u32_round_trip(n);
    assert(b[0] == u32_le(n)[0] && b[1] == u32_le(n)[1] && b[2] == u32_le(n)[2] && b[3]
        == u32_le(n)[3]);
    assert(le_to_u32(b) == n);
    assert(b.subrange(4, 4 + e.len() as int) =~= e);
    encode_utf8_valid_utf8(s);
    encode_utf8_decode_utf8(s);
}

/// Reading a stored tag back gives the tag and its whole length.
pub proof fn lemma_parse_tag(t: TagView, rest: Seq<u8>)
    requires
        tag_fits(t),
    ensures
        parse_tag(encode_tag(t) + rest) == Some((t, encode_tag(t).len() as int)),
{
    let b = encode_tag(t) + rest;
    match t.group {
        GroupView::Default => {
            assert(b.skip(2) =~= field(t.name) + rest);
            lemma_parse_field(t.name, rest);
        },
        GroupView::Custom(g) => {
            assert(b.skip(2) =~= field(g) + (field(t.name) + rest));
            lemma_parse_field(g, field(t.name) + rest);
            assert(b.skip(2 + field(g).len() as int) =~= field(t.name) + rest);
            lemma_parse_field(t.name, rest);
        },
    }
}

/// Reading stored tags back gives the same tags in the same order.
pub proof fn lemma_parse_tags(ts: Seq<TagView>)
    requires
        tags_fit(ts),
    ensures
        parse_tags(encode_tags(ts)) == Some(ts),
    decreases ts.len(),
{
    if ts.len() > 0 {
        let rest = ts.drop_first();
        assert(tags_fit(rest)) by {
            assert forall|i: int| 0 <= i < rest.len() implies tag_fits(#[trigger] rest[i]) by {
                assert(rest[i] == ts[i + 1]);
            }
        }
        assert(tag_fits(ts[0]));
        lemma_parse_tag(ts[0], encode_tags(rest));
        let b = encode_tags(ts);
        let k = encode_tag(ts[0]).len() as int;
        assert(b.skip(k) =~= encode_tags(rest));
        lemma_parse_tags(rest);
        assert(seq![ts[0]] + rest =~= ts);
    } else {
        assert(encode_tags(ts).len() == 0);
    }
}

/// Encoding one more tag appends that tag's bytes.
pub proof fn lemma_encode_tags_push(ts: Seq<TagView>, t: TagView)
    ensures
        encode_tags(ts.push(t)) == encode_tags(ts) + encode_tag(t),
    decreases ts.len(),
{
    if ts.len() == 0 {
        assert(ts.push(t).drop_first() =~= Seq::<TagView>::empty());
        assert(encode_tags(ts.push(t).drop_first()) == Seq::<u8>::empty());
        assert(ts.push(t)[0] == t);
        assert(encode_tags(ts) == Seq::<u8>::empty());
        assert(encode_tags(ts.push(t)) =~= encode_tags(ts) + encode_tag(t));
    } else {
        assert(ts.push(t).drop_first() =~= ts.drop_first().push(t));
        assert(ts.push(t)[0] == ts[0]);
        lemma_encode_tags_push(ts.drop_first(), t);
        assert(encode_tags(ts.push(t)) == encode_tag(ts[0]) + encode_tags(ts.drop_first().push(t)));
        assert(encode_tags(ts.push(t)) =~= encode_tags(ts) + encode_tag(t));
    }
}

/// Reading a record back gives the tags it was written with.
pub proof fn lemma_tag_record_round_trip(ts: Seq<TagView>)
    requires
        tags_fit(ts),
    ensures
        parse_tag_record(tag_record(ts)) == Some(ts),
{
    assert(tag_record(ts).skip(1) =~= encode_tags(ts));
    lemma_parse_tags(ts);
}

/// Relies on `String::from_utf8`: it accepts exactly the byte vectors that are valid UTF-8,
/// and the string it returns holds those very bytes.
#[verifier::external_body]
fn string_from_utf8(v: Vec<u8>) -> (r: Option<String>)
    ensures
        r is Some <==> valid_utf8(v@),
        r matches Some(s) ==> encode_utf8(s@) == v@,
{
    String::from_utf8(v).ok()
}

/// Appends a string as stored.
fn put_field(out: &mut Vec<u8>, s: &str)
    requires
        fits(s@),
    ensures
        final(out)@ == old(out)@ + field(s@),
{
    let bytes = s.as_bytes();
    put_u32(out, bytes.len() as u32);
    let ghost start = out@;
    let mut i: usize = 0;
    while i < bytes.len()
        invariant
            i <= bytes@.len(),
            bytes@ == encode_utf8(s@),
            out@ == start + bytes@.take(i as int),
        decreases bytes@.len() - i,
    {
        out.push(bytes[i]);
        assert(bytes@.take(i as int + 1) =~= bytes@.take(i as int).push(bytes@[i as int]));
        i = i + 1;
    }
    assert(bytes@.take(bytes@.len() as int) =~= bytes@);
    assert(final(out)@ =~= old(out)@ + field(s@));
}

/// The record of the tags, in the order given; `None` when a name is too long for its
/// four-byte length.
pub fn encode_tag_record(tags: &[Tag]) -> (r: Option<Vec<u8>>)
    ensures
        r is Some <==> tags_fit(tag_views(tags@)),
        r matches Some(b) ==> b@ == tag_record(tag_views(tags@)),
{
    let ghost views = tag_views(tags@);
    let mut out: Vec<u8> = Vec::new();
    out.push(TAG_FORMAT_VERSION);
    let mut i: usize = 0;
    while i < tags.len()
        invariant
            i <= tags@.len(),
            views == tag_views(tags@),
            out@ == seq![TAG_FORMAT_VERSION] + encode_tags(views.take(i as int)),
            forall|j: int| 0 <= j < i ==> tag_fits(#[trigger] views[j]),
        decreases tags@.len() - i,
    {
        let t = &tags[i];
        let name = t.name();
        if name.as_bytes().len() > u32::MAX as usize {
            assert(!tag_fits(views[i as int]));
            return None;
        }
        let ghost before = out@;
        match t.group() {
            Group::Custom(g) => {
                if g.as_str().as_bytes().len() > u32::MAX as usize {
                    assert(!tag_fits(views[i as int]));
                    return None;
                }
                out.push(1u8);
                out.push(1u8);
                put_field(&mut out, g.as_str());
            },
            Group::Default => {
                out.push(0u8);
                out.push(0u8);
            },
        }
        put_field(&mut out, name);
        proof {
            assert(out@ =~= before + encode_tag(views[i as int]));
            lemma_encode_tags_push(views.take(i as int), views[i as int]);
            assert(views.take(i as int + 1) =~= views.take(i as int).push(views[i as int]));
        }
        i = i + 1;
    }
    assert(views.take(tags@.len() as int) =~= views);
    Some(out)
}

/// The parsed tags placed after those already read.
pub open spec fn after(read: Seq<TagView>, rest: Option<Seq<TagView>>) -> Option<Seq<TagView>> {
    match rest {
        Some(r) => Some(read + r),
        None => None,
    }
}

/// The string stored at `pos`, and where it ends.
fn read_field(b: &[u8], pos: usize) -> (r: Option<(String, usize)>)
    requires
        pos <= b@.len(),
    ensures
        match parse_field(b@.subrange(pos as int, b@.len() as int)) {
            Some((s, k)) => r matches Some((x, end)) && x@ == s && end == pos + k,
            None => r is None,
        },
{
    let ghost tail = b@.subrange(pos as int, b@.len() as int);
    let n = b.len();
    if n - pos < 4 {
        return None;
    }
    let len = get_u32(b, pos);
    assert(b@.subrange(pos as int, pos + 4) =~= tail.subrange(0, 4));
    assert(le_to_u32(tail) == len);
    if ((n - pos - 4) as u64) < len as u64 {
        return None;
    }
    let end = pos + 4 + len as usize;
    let bytes = slice_to_vec(slice_subrange(b, pos + 4, end));
    assert(bytes@ =~= tail.subrange(4, 4 + len as int));
    match string_from_utf8(bytes) {
        Some(s) => {
            proof {
                encode_utf8_decode_utf8(s@);
            }
            Some((s, end))
        },
        None => None,
    }
}

/// The tag stored at `pos`, and where it ends.
fn read_tag(b: &[u8], pos: usize) -> (r: Option<(Tag, usize)>)
    requires
        pos <= b@.len(),
    ensures
        match parse_tag(b@.subrange(pos as int, b@.len() as int)) {
            Some((t, k)) => r matches Some((x, end)) && x@ == t && end == pos + k && pos < end
                <= b@.len(),
            None => r is None,
        },
{
    let ghost tail = b@.subrange(pos as int, b@.len() as int);
    let n = b.len();
    if n - pos < 2 {
        return None;
    }
    let flag = b[pos];
    let second = b[pos + 1];
    assert(tail.skip(2) =~= b@.subrange(pos + 2, b@.len() as int));
    if flag == 0 && second == 0 {
        match read_field(b, pos + 2) {
            Some((name, end)) => Some((Tag::new(Group::Default, name.as_str()), end)),
            None => None,
        }
    } else if flag == 1 && second == 1 {
        match read_field(b, pos + 2) {
            Some((g, mid)) => {
                assert(tail.skip(mid - pos) =~= b@.subrange(mid as int, b@.len() as int));
                match read_field(b, mid) {
                    Some((name, end)) => Some((Tag::new(Group::Custom(g), name.as_str()), end)),
                    None => None,
                }
            },
            None => None,
        }
    } else {
        None
    }
}

/// The tags of a record, in the order stored; `None` when the version byte is wrong or a
/// tag is cut off or malformed.
pub fn decode_tag_record(b: &[u8]) -> (r: Option<Vec<Tag>>)
    ensures
        match parse_tag_record(b@) {
            Some(ts) => r matches Some(v) && tag_views(v@) == ts,
            None => r is None,
        },
{
    let n = b.len();
    if n < 1 || b[0] != TAG_FORMAT_VERSION {
        return None;
    }
    assert(b@.skip(1) =~= b@.subrange(1, n as int));
    let mut out: Vec<Tag> = Vec::new();
    let mut pos: usize = 1;
    assert(tag_views(out@) =~= Seq::<TagView>::empty());
    assert(after(Seq::empty(), parse_tags(b@.subrange(1, n as int))) =~= parse_tags(
        b@.subrange(1, n as int),
    ));
    while pos < n
        invariant
            1 <= pos <= n,
            n == b@.len(),
            parse_tags(b@.subrange(1, n as int)) == after(
                tag_views(out@),
                parse_tags(b@.subrange(pos as int, n as int)),
            ),
        decreases n - pos,
    {
        let ghost tail = b@.subrange(pos as int, n as int);
        match read_tag(b, pos) {
            Some((t, end)) => {
                let ghost prev = tag_views(out@);
                assert(tail.skip(end - pos) =~= b@.subrange(end as int, n as int));
                out.push(t);
                assert(tag_views(out@) =~= prev.push(t@));
                proof {
                    match parse_tags(b@.subrange(end as int, n as int)) {
                        Some(rest) => {
                            assert(prev + (seq![t@] + rest) =~= prev.push(t@) + rest);
                        },
                        None => {},
                    }
                }
                pos = end;
            },
            None => {
                return None;
            },
        }
    }
    assert(b@.subrange(n as int, n as int) =~= Seq::<u8>::empty());
    assert(tag_views(out@) + Seq::<TagView>::empty() =~= tag_views(out@));
    Some(out)
}

} // verus!
