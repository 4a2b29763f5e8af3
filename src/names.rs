//! The names of the files a directory-backed store keeps: sixteen upper-case hexadecimal
//! digits of the ID, then an extension.
use vstd::arithmetic::div_mod::lemma_mod_breakdown;
use vstd::prelude::*;
use vstd::string::StrSliceExecFns;

use crate::file::FileId;

verus! {

/// The hexadecimal digit of a value below sixteen.
pub open spec fn hex_char(d: int) -> char {
    if d == 0 {
        '0'
    } else if d == 1 {
        '1'
    } else if d == 2 {
        '2'
    } else if d == 3 {
        '3'
    } else if d == 4 {
        '4'
    } else if d == 5 {
        '5'
    } else if d == 6 {
        '6'
    } else if d == 7 {
        '7'
    } else if d == 8 {
        '8'
    } else if d == 9 {
        '9'
    } else if d == 10 {
        'A'
    } else if d == 11 {
        'B'
    } else if d == 12 {
        'C'
    } else if d == 13 {
        'D'
    } else if d == 14 {
        'E'
    } else {
        'F'
    }
}

/// The value of an upper-case hexadecimal digit; sixteen for any other character.
pub open spec fn digit_of(c: char) -> int {
    if c == '0' {
        0
    } else if c == '1' {
        1
    } else if c == '2' {
        2
    } else if c == '3' {
        3
    } else if c == '4' {
        4
    } else if c == '5' {
        5
    } else if c == '6' {
        6
    } else if c == '7' {
        7
    } else if c == '8' {
        8
    } else if c == '9' {
        9
    } else if c == 'A' {
        10
    } else if c == 'B' {
        11
    } else if c == 'C' {
        12
    } else if c == 'D' {
        13
    } else if c == 'E' {
        14
    } else if c == 'F' {
        15
    } else {
        16
    }
}

/// The last `n` hexadecimal digits of `v`, most significant first.
pub open spec fn hex_digits(v: nat, n: nat) -> Seq<char>
    decreases n,
{
    if n == 0 {
        Seq::empty()
    } else {
        hex_digits(v / 16, (n - 1) as nat).push(hex_char(v as int % 16))
    }
}

/// The value of a string of hexadecimal digits, most significant first.
pub open spec fn hex_value(s: Seq<char>) -> nat
    decreases s.len(),
{
    if s.len() == 0 {
        0
    } else {
        hex_value(s.drop_last()) * 16 + digit_of(s.last()) as nat
    }
}

/// Sixteen to the power `n`.
pub open spec fn pow16(n: nat) -> nat
    decreases n,
{
    if n == 0 {
        1
    } else {
        16 * pow16((n - 1) as nat)
    }
}

/// The name of the file that holds a file's bytes.
pub open spec fn data_file_name(id: u64) -> Seq<char> {
    hex_digits(id as nat, 16) + seq!['.', 'd', 'a', 't']
}

/// The name of the file that holds a file's tags.
pub open spec fn tag_file_name(id: u64) -> Seq<char> {
    hex_digits(id as nat, 16) + seq!['.', 't', 'a', 'g']
}

proof fn lemma_pow16_monotonic(a: nat, b: nat)
    requires
        a <= b,
    ensures
        pow16(a) <= pow16(b),
    decreases b,
{
    if a < b {
        lemma_pow16_monotonic(a, (b - 1) as nat);
    }
}

proof fn lemma_hex_digits(v: nat, n: nat)
    ensures
        pow16(n) > 0,
        hex_digits(v, n).len() == n,
        hex_value(hex_digits(v, n)) == v % pow16(n),
        forall|k: int| 0 <= k < n ==> digit_of(#[trigger] hex_digits(v, n)[k]) < 16,
    decreases n,
{
    if n > 0 {
        lemma_hex_digits(v / 16, (n - 1) as nat);
        let s = hex_digits(v, n);
        let d = v as int % 16;
        assert(digit_of(hex_char(d)) == d);
        assert(s.drop_last() =~= hex_digits(v / 16, (n - 1) as nat));
        lemma_mod_breakdown(v as int, 16, pow16((n - 1) as nat) as int);
        assert forall|k: int| 0 <= k < n implies digit_of(#[trigger] s[k]) < 16 by {
            if k < n - 1 {
                assert(s[k] == hex_digits(v / 16, (n - 1) as nat)[k]);
            }
        }
    } else {
        assert(v % 1 == 0);
    }
}

/// Sixteen digits give back every `u64`.
proof fn lemma_id_digits(id: u64)
    ensures
        hex_digits(id as nat, 16).len() == 16,
        hex_value(hex_digits(id as nat, 16)) == id,
        forall|k: int| 0 <= k < 16 ==> digit_of(#[trigger] hex_digits(id as nat, 16)[k]) < 16,
{
    lemma_hex_digits(id as nat, 16);
    reveal_with_fuel(pow16, 17);
    assert(pow16(16) == 0x1_0000_0000_0000_0000);
}

/// No two IDs share a tag file.
pub proof fn lemma_tag_file_name_injective(a: u64, b: u64)
    requires
        tag_file_name(a) == tag_file_name(b),
    ensures
        a == b,
{
    lemma_id_digits(a);
    lemma_id_digits(b);
    assert(tag_file_name(a).take(16) =~= hex_digits(a as nat, 16));
    assert(tag_file_name(b).take(16) =~= hex_digits(b as nat, 16));
}

/// Relies on std's `{:016X}` formatting of a `u64`: sixteen upper-case hexadecimal digits,
/// most significant first, padded with zeros.
#[verifier::external_body]
fn format_hex16(v: u64) -> (r: String)
    ensures
        r@ == hex_digits(v as nat, 16),
{
    format!("{:016X}", v)
}

/// The value of an upper-case hexadecimal digit.
fn hex_digit_value(c: char) -> (r: Option<u64>)
    ensures
        digit_of(c) < 16 ==> r == Some(digit_of(c) as u64),
        digit_of(c) >= 16 ==> r is None,
{
    match c {
        '0' => Some(0),
        '1' => Some(1),
        '2' => Some(2),
        '3' => Some(3),
        '4' => Some(4),
        '5' => Some(5),
        '6' => Some(6),
        '7' => Some(7),
        '8' => Some(8),
        '9' => Some(9),
        'A' => Some(10),
        'B' => Some(11),
        'C' => Some(12),
        'D' => Some(13),
        'E' => Some(14),
        'F' => Some(15),
        _ => None,
    }
}

/// The name of the file that holds the bytes of the file with this ID.
pub fn data_name(id: FileId) -> (r: String)
    ensures
        r@ == data_file_name(id@),
{
    proof {
        reveal_strlit(".dat");
    }
    format_hex16(id.into_u64_unchecked()).concat(".dat")
}

/// The name of the file that holds the tags of the file with this ID.
pub fn tag_name(id: FileId) -> (r: String)
    ensures
        r@ == tag_file_name(id@),
{
    proof {
        reveal_strlit(".tag");
    }
    format_hex16(id.into_u64_unchecked()).concat(".tag")
}

/// The ID whose tag file has this name; `None` for any name that is not such a name.
pub fn parse_tag_name(name: &str) -> (r: Option<FileId>)
    ensures
        r matches Some(id) ==> name@ == tag_file_name(id@),
        r is None ==> forall|id: u64| name@ != #[trigger] tag_file_name(id),
{
    if name.unicode_len() != 20 {
        proof {
            assert forall|id: u64| name@ != #[trigger] tag_file_name(id) by {
                lemma_id_digits(id);
            }
        }
        return None;
    }
    let mut v: u64 = 0;
    let mut i: usize = 0;
    while i < 16
        invariant
            i <= 16,
            name@.len() == 20,
            v == hex_value(name@.take(i as int)),
            v < pow16(i as nat),
            forall|k: int| 0 <= k < i ==> digit_of(#[trigger] name@[k]) < 16,
        decreases 16 - i,
    {
        let c = name.get_char(i);
        let d = match hex_digit_value(c) {
            Some(d) => d,
            None => {
                proof {
                    assert forall|id: u64| name@ != #[trigger] tag_file_name(id) by {
                        lemma_id_digits(id);
                        if name@ == tag_file_name(id) {
                            assert(name@[i as int] == hex_digits(id as nat, 16)[i as int]);
                        }
                    }
                }
                return None;
            },
        };
        proof {
            lemma_pow16_monotonic(i as nat, 15);
            reveal_with_fuel(pow16, 16);
            assert(pow16(15) == 0x1000_0000_0000_0000);
            assert(name@.take(i as int + 1).drop_last() =~= name@.take(i as int));
        }
        v = v * 16 + d;
        i = i + 1;
    }
    let rendered = tag_name(FileId::from_u64_unchecked(v));
    if rendered.eq(&name.to_owned()) {
        Some(FileId::from_u64_unchecked(v))
    } else {
        proof {
            assert forall|id: u64| name@ != #[trigger] tag_file_name(id) by {
                if name@ == tag_file_name(id) {
                    lemma_id_digits(id);
                    assert(name@.take(16) =~= hex_digits(id as nat, 16));
                }
            }
        }
        None
    }
}

} // verus!
