//! Bridging between `String` values and the `Vec<char>` buffers the rest of
//! the crate computes with.

use vstd::prelude::*;

verus! {

/// Relies on `String::push`: appends exactly the given character.
#[verifier::external_body]
fn string_push(s: &mut String, c: char)
    ensures
        final(s)@ == old(s)@.push(c),
{
    s.push(c)
}

/// Relies on `char::from_u32`: returns `Some` for every Unicode scalar value,
/// and the returned character has the given numeric value.
#[verifier::external_body]
pub fn char_from_u32(v: u32) -> (c: char)
    requires
        v < 0xD800 || (0xE000 <= v && v <= 0x10FFFF),
    ensures
        c as u32 == v,
{
    char::from_u32(v).unwrap()
}

/// Builds a `String` holding exactly the given characters.
pub fn chars_to_string(v: &Vec<char>) -> (s: String)
    ensures
        s@ == v@,
{
    let mut s = String::new();
    let n = v.len();
    let mut i: usize = 0;
    while i < n
        invariant
            n == v@.len(),
            i <= n,
            s@ == v@.subrange(0, i as int),
        decreases n - i,
    {
        string_push(&mut s, v[i]);
        i = i + 1;
        assert(s@ =~= v@.subrange(0, i as int));
    }
    assert(s@ =~= v@);
    s
}

/// Character-for-character equality of two string slices.
pub fn str_eq(a: &str, b: &str) -> (r: bool)
    ensures
        r == (a@ == b@),
{
    let av = str_to_chars(a);
    let bv = str_to_chars(b);
    let n = av.len();
    if n != bv.len() {
        proof {
            assert(a@.len() != b@.len());
        }
        return false;
    }
    let mut i: usize = 0;
    while i < n
        invariant
            n == av@.len() == bv@.len(),
            av@ == a@,
            bv@ == b@,
            i <= n,
            forall|t: int| 0 <= t < i ==> av@[t] == bv@[t],
        decreases n - i,
    {
        if av[i] != bv[i] {
            return false;
        }
        i = i + 1;
    }
    proof {
        assert(a@ =~= b@);
    }
    true
}

/// Collects the characters of a string slice.
pub fn str_to_chars(s: &str) -> (v: Vec<char>)
    ensures
        v@ == s@,
        scalar_chars(s@),
{
    let n = s.unicode_len();
    let mut v: Vec<char> = Vec::new();
    let mut i: usize = 0;
    while i < n
        invariant
            n == s@.len(),
            i <= n,
            v@ == s@.subrange(0, i as int),
            scalar_chars(v@),
        decreases n - i,
    {
        let c = s.get_char(i);
        assert(scalar_char(c));
        v.push(c);
        i = i + 1;
        assert(v@ =~= s@.subrange(0, i as int));
    }
    assert(v@ =~= s@);
    v
}

/// A Unicode scalar value: the range every runtime character lies in.
pub open spec fn scalar_char(c: char) -> bool {
    0 <= (c as int) && ((c as int) < 0xD800 || (0xE000 <= (c as int) && (c as int) <= 0x10FFFF))
}

/// Every character of the sequence is a Unicode scalar value. Runtime
/// strings always satisfy this; ghost sequences state it explicitly.
pub open spec fn scalar_chars(s: Seq<char>) -> bool {
    forall|i: int| 0 <= i < s.len() ==> scalar_char(#[trigger] s[i])
}

/// True when every character is in the seven-bit range.
pub open spec fn all_ascii(s: Seq<char>) -> bool {
    forall|i: int| 0 <= i < s.len() ==> '\0' <= (#[trigger] s[i]) && s[i] < 128
}

/// The bytes of a sequence of seven-bit characters, value for value.
pub open spec fn ascii_bytes(s: Seq<char>) -> Seq<u8> {
    s.map_values(|c: char| c as u8)
}

/// The characters of a byte sequence, value for value; meaningful for
/// seven-bit bytes.
pub open spec fn bytes_chars(b: Seq<u8>) -> Seq<char> {
    b.map_values(|x: u8| x as char)
}

/// Converts seven-bit characters to bytes of the same values.
pub fn chars_to_bytes(v: &Vec<char>) -> (b: Vec<u8>)
    requires
        all_ascii(v@),
    ensures
        b@ == ascii_bytes(v@),
        b@.len() == v@.len(),
{
    let n = v.len();
    let mut b: Vec<u8> = Vec::new();
    let mut i: usize = 0;
    while i < n
        invariant
            n == v@.len(),
            all_ascii(v@),
            i <= n,
            b@ == ascii_bytes(v@.subrange(0, i as int)),
        decreases n - i,
    {
        assert('\0' <= v@[i as int] && v@[i as int] < 128);
        b.push(v[i] as u8);
        i = i + 1;
        assert(b@ =~= ascii_bytes(v@.subrange(0, i as int)));
    }
    assert(b@ =~= ascii_bytes(v@));
    b
}

/// Converts bytes to characters of the same values, refusing any byte
/// outside the seven-bit range.
pub fn bytes_to_chars(b: &Vec<u8>) -> (r: Option<Vec<char>>)
    ensures
        match r {
            Some(v) => v@ == bytes_chars(b@) && all_ascii(v@) && v@.len() == b@.len(),
            None => !(forall|i: int| 0 <= i < b@.len() ==> (#[trigger] b@[i]) < 128),
        },
    // A byte below 128 becomes the character of the same value, so on
    // success the characters are exactly the bytes.
{
    let n = b.len();
    let mut v: Vec<char> = Vec::new();
    let mut i: usize = 0;
    while i < n
        invariant
            n == b@.len(),
            i <= n,
            forall|j: int| 0 <= j < i ==> (#[trigger] b@[j]) < 128,
            v@ == bytes_chars(b@.subrange(0, i as int)),
        decreases n - i,
    {
        if b[i] >= 128 {
            return None;
        }
        v.push(b[i] as char);
        i = i + 1;
        assert(v@ =~= bytes_chars(b@.subrange(0, i as int)));
    }
    assert(v@ =~= bytes_chars(b@));
    Some(v)
}

} // verus!
