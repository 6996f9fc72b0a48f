//! URL-safe base64 without padding: the alphabet used by compact token
//! segments. Encoding and decoding are verified inverses; the decoder accepts
//! only canonical input (zero padding bits), so every segment has exactly one
//! accepted spelling.

use vstd::prelude::*;

verus! {

/// The URL-safe alphabet character for a value in `0..64`.
pub open spec fn b64_char(v: int) -> char {
    if v < 26 {
        (('A' as int) + v) as char
    } else if v < 52 {
        (('a' as int) + (v - 26)) as char
    } else if v < 62 {
        (('0' as int) + (v - 52)) as char
    } else if v == 62 {
        '-'
    } else {
        '_'
    }
}

/// The value of a URL-safe alphabet character, `-1` for any other character.
pub open spec fn b64_val(c: char) -> int {
    if 'A' <= c && c <= 'Z' {
        (c as int) - ('A' as int)
    } else if 'a' <= c && c <= 'z' {
        (c as int) - ('a' as int) + 26
    } else if '0' <= c && c <= '9' {
        (c as int) - ('0' as int) + 52
    } else if c == '-' {
        62
    } else if c == '_' {
        63
    } else {
        -1
    }
}

/// Unpadded URL-safe base64 of a byte sequence, three bytes to four
/// characters, with two- or three-character tails.
pub open spec fn b64_enc(s: Seq<u8>) -> Seq<char>
    decreases s.len(),
{
    if s.len() == 0 {
        Seq::<char>::empty()
    } else if s.len() == 1 {
        let b0 = s[0] as int;
        seq![b64_char(b0 / 4), b64_char((b0 % 4) * 16)]
    } else if s.len() == 2 {
        let b0 = s[0] as int;
        let b1 = s[1] as int;
        seq![b64_char(b0 / 4), b64_char((b0 % 4) * 16 + b1 / 16), b64_char((b1 % 16) * 4)]
    } else {
        let b0 = s[0] as int;
        let b1 = s[1] as int;
        let b2 = s[2] as int;
        seq![
            b64_char(b0 / 4),
            b64_char((b0 % 4) * 16 + b1 / 16),
            b64_char((b1 % 16) * 4 + b2 / 64),
            b64_char(b2 % 64),
        ] + b64_enc(s.skip(3))
    }
}

/// Canonical decoding of unpadded URL-safe base64: `None` on a character
/// outside the alphabet, on an impossible length, or on nonzero padding bits.
pub open spec fn b64_dec(s: Seq<char>) -> Option<Seq<u8>>
    decreases s.len(),
{
    if s.len() == 0 {
        Some(Seq::<u8>::empty())
    } else if s.len() == 1 {
        None
    } else if s.len() == 2 {
        let v0 = b64_val(s[0]);
        let v1 = b64_val(s[1]);
        if v0 >= 0 && v1 >= 0 && v1 % 16 == 0 {
            Some(seq![(v0 * 4 + v1 / 16) as u8])
        } else {
            None
        }
    } else if s.len() == 3 {
        let v0 = b64_val(s[0]);
        let v1 = b64_val(s[1]);
        let v2 = b64_val(s[2]);
        if v0 >= 0 && v1 >= 0 && v2 >= 0 && v2 % 4 == 0 {
            Some(seq![(v0 * 4 + v1 / 16) as u8, ((v1 % 16) * 16 + v2 / 4) as u8])
        } else {
            None
        }
    } else {
        let v0 = b64_val(s[0]);
        let v1 = b64_val(s[1]);
        let v2 = b64_val(s[2]);
        let v3 = b64_val(s[3]);
        if v0 >= 0 && v1 >= 0 && v2 >= 0 && v3 >= 0 {
            match b64_dec(s.skip(4)) {
                Some(rest) => Some(
                    seq![
                        (v0 * 4 + v1 / 16) as u8,
                        ((v1 % 16) * 16 + v2 / 4) as u8,
                        ((v2 % 4) * 64 + v3) as u8,
                    ] + rest,
                ),
                None => None,
            }
        } else {
            None
        }
    }
}

/// An alphabet character reads back as the value it renders, and is a
/// seven-bit character other than `'.'` and `'"'`.
pub proof fn lemma_b64_char_val(v: int)
    requires
        0 <= v < 64,
    ensures
        b64_val(b64_char(v)) == v,
        b64_char(v) != '.',
        b64_char(v) != '"',
        b64_char(v) < 128,
{
    if v < 26 {
        assert((('A' as int) + v) as char as int == ('A' as int) + v);
    } else if v < 52 {
        assert((('a' as int) + (v - 26)) as char as int == ('a' as int) + (v - 26));
    } else if v < 62 {
        assert((('0' as int) + (v - 52)) as char as int == ('0' as int) + (v - 52));
    }
}

/// Every character an encoding produces is in the alphabet (hence seven-bit
/// and free of `'.'` and `'"'`).
pub proof fn lemma_b64_enc_chars(s: Seq<u8>)
    ensures
        forall|i: int|
            0 <= i < b64_enc(s).len() ==> 0 <= #[trigger] b64_val(b64_enc(s)[i]) < 64,
        forall|i: int|
            0 <= i < b64_enc(s).len() ==> b64_enc(s)[i] != '.' && b64_enc(s)[i] != '"'
                && b64_enc(s)[i] < 128,
    decreases s.len(),
{
    let e = b64_enc(s);
    if s.len() == 0 {
    } else if s.len() == 1 {
        let b0 = s[0] as int;
        lemma_b64_char_val(b0 / 4);
        lemma_b64_char_val((b0 % 4) * 16);
        assert(e.len() == 2 && e[0] == b64_char(b0 / 4) && e[1] == b64_char((b0 % 4) * 16));
    } else if s.len() == 2 {
        let b0 = s[0] as int;
        let b1 = s[1] as int;
        lemma_b64_char_val(b0 / 4);
        lemma_b64_char_val((b0 % 4) * 16 + b1 / 16);
        lemma_b64_char_val((b1 % 16) * 4);
        assert(e.len() == 3 && e[0] == b64_char(b0 / 4) && e[1] == b64_char(
            (b0 % 4) * 16 + b1 / 16,
        ) && e[2] == b64_char((b1 % 16) * 4));
    } else {
        let b0 = s[0] as int;
        let b1 = s[1] as int;
        let b2 = s[2] as int;
        lemma_b64_char_val(b0 / 4);
        lemma_b64_char_val((b0 % 4) * 16 + b1 / 16);
        lemma_b64_char_val((b1 % 16) * 4 + b2 / 64);
        lemma_b64_char_val(b2 % 64);
        lemma_b64_enc_chars(s.skip(3));
        let rest = b64_enc(s.skip(3));
        assert forall|i: int| 0 <= i < e.len() implies 0 <= #[trigger] b64_val(e[i]) < 64
            && e[i] != '.' && e[i] != '"' && e[i] < 128 by {
            if i >= 4 {
                assert(e[i] == rest[i - 4]);
                assert(0 <= b64_val(rest[i - 4]) < 64);
            }
        }
    }
}

/// Decoding is a left inverse of encoding.
pub proof fn lemma_b64_roundtrip(s: Seq<u8>)
    ensures
        b64_dec(b64_enc(s)) == Some(s),
    decreases s.len(),
{
    let e = b64_enc(s);
    if s.len() == 0 {
        assert(b64_dec(e) == Some(Seq::<u8>::empty()));
        assert(Seq::<u8>::empty() =~= s);
    } else if s.len() == 1 {
        let b0 = s[0] as int;
        lemma_b64_char_val(b0 / 4);
        lemma_b64_char_val((b0 % 4) * 16);
        assert(e.len() == 2);
        assert(((b0 % 4) * 16) % 16 == 0);
        assert((b0 / 4) * 4 + ((b0 % 4) * 16) / 16 == b0);
        assert(b64_dec(e) == Some(seq![b0 as u8]));
        assert(seq![b0 as u8] =~= s);
    } else if s.len() == 2 {
        let b0 = s[0] as int;
        let b1 = s[1] as int;
        let v0 = b0 / 4;
        let v1 = (b0 % 4) * 16 + b1 / 16;
        let v2 = (b1 % 16) * 4;
        lemma_b64_char_val(v0);
        lemma_b64_char_val(v1);
        lemma_b64_char_val(v2);
        assert(e.len() == 3);
        assert(v2 % 4 == 0);
        assert(v1 / 16 == b0 % 4);
        assert(v1 % 16 == b1 / 16);
        assert(v0 * 4 + v1 / 16 == b0);
        assert((v1 % 16) * 16 + v2 / 4 == b1);
        assert(b64_dec(e) == Some(seq![b0 as u8, b1 as u8]));
        assert(seq![b0 as u8, b1 as u8] =~= s);
    } else {
        let b0 = s[0] as int;
        let b1 = s[1] as int;
        let b2 = s[2] as int;
        let v0 = b0 / 4;
        let v1 = (b0 % 4) * 16 + b1 / 16;
        let v2 = (b1 % 16) * 4 + b2 / 64;
        let v3 = b2 % 64;
        lemma_b64_char_val(v0);
        lemma_b64_char_val(v1);
        lemma_b64_char_val(v2);
        lemma_b64_char_val(v3);
        lemma_b64_roundtrip(s.skip(3));
        assert(e.len() >= 4);
        assert(e.skip(4) =~= b64_enc(s.skip(3)));
        assert(v1 / 16 == b0 % 4);
        assert(v1 % 16 == b1 / 16);
        assert(v2 / 4 == b1 % 16);
        assert(v2 % 4 == b2 / 64);
        assert(v0 * 4 + v1 / 16 == b0);
        assert((v1 % 16) * 16 + v2 / 4 == b1);
        assert((v2 % 4) * 64 + v3 == b2);
        assert(seq![b0 as u8, b1 as u8, b2 as u8] + s.skip(3) =~= s);
    }
}

/// An alphabet character is the rendering of its own value.
proof fn lemma_b64_val_char(c: char)
    requires
        b64_val(c) >= 0,
    ensures
        b64_char(b64_val(c)) == c,
{
    if 'A' <= c && c <= 'Z' {
        assert((('A' as int) + ((c as int) - ('A' as int))) as char == c);
    } else if 'a' <= c && c <= 'z' {
        assert((('a' as int) + ((c as int) - ('a' as int) + 26) - 26) as char == c);
    } else if '0' <= c && c <= '9' {
        assert((('0' as int) + ((c as int) - ('0' as int) + 52) - 52) as char == c);
    }
}

/// Decoding accepts only canonical text: what decodes to `v` is exactly
/// the encoding of `v`.
pub proof fn lemma_b64_canonical(s: Seq<char>, v: Seq<u8>)
    requires
        b64_dec(s) == Some(v),
    ensures
        s == b64_enc(v),
    decreases s.len(),
{
    if s.len() == 0 {
        assert(v =~= Seq::<u8>::empty());
        assert(s =~= b64_enc(v));
    } else if s.len() == 2 {
        let v0 = b64_val(s[0]);
        let v1 = b64_val(s[1]);
        lemma_b64_val_char(s[0]);
        lemma_b64_val_char(s[1]);
        let b0 = v0 * 4 + v1 / 16;
        assert(v =~= seq![b0 as u8]);
        assert(v1 / 16 < 4);
        assert(b0 / 4 == v0);
        assert(b0 % 4 == v1 / 16);
        assert((b0 % 4) * 16 == v1);
        assert(s =~= b64_enc(v));
    } else if s.len() == 3 {
        let v0 = b64_val(s[0]);
        let v1 = b64_val(s[1]);
        let v2 = b64_val(s[2]);
        lemma_b64_val_char(s[0]);
        lemma_b64_val_char(s[1]);
        lemma_b64_val_char(s[2]);
        let b0 = v0 * 4 + v1 / 16;
        let b1 = (v1 % 16) * 16 + v2 / 4;
        assert(v =~= seq![b0 as u8, b1 as u8]);
        assert(b0 / 4 == v0);
        assert(b0 % 4 == v1 / 16);
        assert(b1 / 16 == v1 % 16);
        assert((b0 % 4) * 16 + b1 / 16 == v1);
        assert(b1 % 16 == v2 / 4);
        assert((b1 % 16) * 4 == v2);
        assert(s =~= b64_enc(v));
    } else {
        let v0 = b64_val(s[0]);
        let v1 = b64_val(s[1]);
        let v2 = b64_val(s[2]);
        let v3 = b64_val(s[3]);
        lemma_b64_val_char(s[0]);
        lemma_b64_val_char(s[1]);
        lemma_b64_val_char(s[2]);
        lemma_b64_val_char(s[3]);
        let b0 = v0 * 4 + v1 / 16;
        let b1 = (v1 % 16) * 16 + v2 / 4;
        let b2 = (v2 % 4) * 64 + v3;
        let rest = b64_dec(s.skip(4))->Some_0;
        lemma_b64_canonical(s.skip(4), rest);
        assert(v =~= seq![b0 as u8, b1 as u8, b2 as u8] + rest);
        assert(b0 / 4 == v0);
        assert(b0 % 4 == v1 / 16);
        assert(b1 / 16 == v1 % 16);
        assert((b0 % 4) * 16 + b1 / 16 == v1);
        assert(b1 % 16 == v2 / 4);
        assert(b2 / 64 == v2 % 4);
        assert((b1 % 16) * 4 + b2 / 64 == v2);
        assert(b2 % 64 == v3);
        assert(v.skip(3) =~= rest);
        assert(v.len() >= 3);
        assert(v[0] == b0 as u8 && v[1] == b1 as u8 && v[2] == b2 as u8);
        assert(s =~= b64_enc(v));
    }
}

fn b64_char_of(v: u8) -> (c: char)
    requires
        v < 64,
    ensures
        c == b64_char(v as int),
{
    if v < 26 {
        (65 + v) as char
    } else if v < 52 {
        (97 + (v - 26)) as char
    } else if v < 62 {
        (48 + (v - 52)) as char
    } else if v == 62 {
        '-'
    } else {
        '_'
    }
}

fn b64_val_of(c: char) -> (v: Option<u8>)
    ensures
        match v {
            Some(x) => b64_val(c) == x as int && x < 64,
            None => b64_val(c) == -1,
        },
{
    if c >= 'A' && c <= 'Z' {
        Some(((c as u32) - 65) as u8)
    } else if c >= 'a' && c <= 'z' {
        Some((((c as u32) - 97) + 26) as u8)
    } else if c >= '0' && c <= '9' {
        Some((((c as u32) - 48) + 52) as u8)
    } else if c == '-' {
        Some(62)
    } else if c == '_' {
        Some(63)
    } else {
        None
    }
}

fn encode_from(out: &mut Vec<char>, s: &Vec<u8>, i: usize)
    requires
        i <= s@.len(),
    ensures
        final(out)@ == old(out)@ + b64_enc(s@.skip(i as int)),
    decreases s@.len() - i,
{
    let n = s.len();
    if i == n {
        assert(out@ =~= old(out)@ + b64_enc(s@.skip(i as int)));
    } else if i + 1 == n {
        let b0 = s[i];
        out.push(b64_char_of(b0 / 4));
        out.push(b64_char_of((b0 % 4) * 16));
        assert(s@.skip(i as int).len() == 1);
        assert(s@.skip(i as int)[0] == b0);
        assert(out@ =~= old(out)@ + b64_enc(s@.skip(i as int)));
    } else if i + 2 == n {
        let b0 = s[i];
        let b1 = s[i + 1];
        out.push(b64_char_of(b0 / 4));
        out.push(b64_char_of((b0 % 4) * 16 + b1 / 16));
        out.push(b64_char_of((b1 % 16) * 4));
        assert(s@.skip(i as int).len() == 2);
        assert(s@.skip(i as int)[0] == b0);
        assert(s@.skip(i as int)[1] == b1);
        assert(out@ =~= old(out)@ + b64_enc(s@.skip(i as int)));
    } else {
        let b0 = s[i];
        let b1 = s[i + 1];
        let b2 = s[i + 2];
        out.push(b64_char_of(b0 / 4));
        out.push(b64_char_of((b0 % 4) * 16 + b1 / 16));
        out.push(b64_char_of((b1 % 16) * 4 + b2 / 64));
        out.push(b64_char_of(b2 % 64));
        encode_from(out, s, i + 3);
        assert(s@.skip(i as int).len() >= 3);
        assert(s@.skip(i as int)[0] == b0);
        assert(s@.skip(i as int)[1] == b1);
        assert(s@.skip(i as int)[2] == b2);
        assert(s@.skip(i as int).skip(3) =~= s@.skip(i as int + 3));
        assert(out@ =~= old(out)@ + b64_enc(s@.skip(i as int)));
    }
}

/// Encodes a byte sequence as unpadded URL-safe base64.
pub fn b64_encode(s: &Vec<u8>) -> (out: Vec<char>)
    ensures
        out@ == b64_enc(s@),
{
    let mut out: Vec<char> = Vec::new();
    encode_from(&mut out, s, 0);
    assert(s@.skip(0) =~= s@);
    out
}

fn decode_from(s: &Vec<char>, i: usize) -> (r: Option<Vec<u8>>)
    requires
        i <= s@.len(),
    ensures
        match r {
            Some(v) => b64_dec(s@.skip(i as int)) == Some(v@),
            None => b64_dec(s@.skip(i as int)) is None,
        },
    decreases s@.len() - i,
{
    let n = s.len();
    if i == n {
        let v: Vec<u8> = Vec::new();
        assert(s@.skip(i as int).len() == 0);
        assert(b64_dec(s@.skip(i as int)) == Some(Seq::<u8>::empty()));
        assert(v@ =~= Seq::<u8>::empty());
        return Some(v);
    }
    if i + 1 == n {
        assert(s@.skip(i as int).len() == 1);
        return None;
    }
    let ghost tail = s@.skip(i as int);
    if i + 2 == n {
        assert(tail.len() == 2);
        assert(tail[0] == s@[i as int] && tail[1] == s@[i as int + 1]);
        let v0 = match b64_val_of(s[i]) {
            Some(v) => v,
            None => { return None; },
        };
        let v1 = match b64_val_of(s[i + 1]) {
            Some(v) => v,
            None => { return None; },
        };
        if v1 % 16 != 0 {
            return None;
        }
        let mut v: Vec<u8> = Vec::new();
        v.push(v0 * 4 + v1 / 16);
        assert(v@ =~= seq![(b64_val(tail[0]) * 4 + b64_val(tail[1]) / 16) as u8]);
        return Some(v);
    }
    if i + 3 == n {
        assert(tail.len() == 3);
        assert(tail[0] == s@[i as int] && tail[1] == s@[i as int + 1] && tail[2] == s@[
            i as int + 2
        ]);
        let v0 = match b64_val_of(s[i]) {
            Some(v) => v,
            None => { return None; },
        };
        let v1 = match b64_val_of(s[i + 1]) {
            Some(v) => v,
            None => { return None; },
        };
        let v2 = match b64_val_of(s[i + 2]) {
            Some(v) => v,
            None => { return None; },
        };
        if v2 % 4 != 0 {
            return None;
        }
        let mut v: Vec<u8> = Vec::new();
        v.push(v0 * 4 + v1 / 16);
        v.push((v1 % 16) * 16 + v2 / 4);
        assert(v@ =~= seq![
            (b64_val(tail[0]) * 4 + b64_val(tail[1]) / 16) as u8,
            ((b64_val(tail[1]) % 16) * 16 + b64_val(tail[2]) / 4) as u8,
        ]);
        return Some(v);
    }
    assert(tail.len() >= 4);
    assert(tail[0] == s@[i as int] && tail[1] == s@[i as int + 1] && tail[2] == s@[i as int + 2]
        && tail[3] == s@[i as int + 3]);
    let v0 = match b64_val_of(s[i]) {
        Some(v) => v,
        None => { return None; },
    };
    let v1 = match b64_val_of(s[i + 1]) {
        Some(v) => v,
        None => { return None; },
    };
    let v2 = match b64_val_of(s[i + 2]) {
        Some(v) => v,
        None => { return None; },
    };
    let v3 = match b64_val_of(s[i + 3]) {
        Some(v) => v,
        None => { return None; },
    };
    let rest = match decode_from(s, i + 4) {
        Some(r) => r,
        None => {
            assert(tail.skip(4) =~= s@.skip(i as int + 4));
            return None;
        },
    };
    assert(tail.skip(4) =~= s@.skip(i as int + 4));
    let mut v: Vec<u8> = Vec::new();
    v.push(v0 * 4 + v1 / 16);
    v.push((v1 % 16) * 16 + v2 / 4);
    v.push((v2 % 4) * 64 + v3);
    let mut j: usize = 0;
    let rn = rest.len();
    while j < rn
        invariant
            rn == rest@.len(),
            j <= rn,
            v@.len() == 3 + j,
            v@ == seq![
                (b64_val(tail[0]) * 4 + b64_val(tail[1]) / 16) as u8,
                ((b64_val(tail[1]) % 16) * 16 + b64_val(tail[2]) / 4) as u8,
                ((b64_val(tail[2]) % 4) * 64 + b64_val(tail[3])) as u8,
            ] + rest@.subrange(0, j as int),
        decreases rn - j,
    {
        v.push(rest[j]);
        j = j + 1;
        assert(v@ =~= seq![
            (b64_val(tail[0]) * 4 + b64_val(tail[1]) / 16) as u8,
            ((b64_val(tail[1]) % 16) * 16 + b64_val(tail[2]) / 4) as u8,
            ((b64_val(tail[2]) % 4) * 64 + b64_val(tail[3])) as u8,
        ] + rest@.subrange(0, j as int));
    }
    assert(rest@.subrange(0, rn as int) =~= rest@);
    assert(b64_dec(tail) == Some(v@));
    Some(v)
}

/// Canonically decodes unpadded URL-safe base64.
pub fn b64_decode(s: &Vec<char>) -> (r: Option<Vec<u8>>)
    ensures
        match r {
            Some(v) => b64_dec(s@) == Some(v@),
            None => b64_dec(s@) is None,
        },
{
    let r = decode_from(s, 0);
    assert(s@.skip(0) =~= s@);
    r
}

} // verus!
