//! The string-escaping scheme of the token payload: printable seven-bit
//! characters other than `'"'` and `'\\'` stand for themselves, every other
//! character becomes a `\u` escape of four lowercase hexadecimal digits
//! (a surrogate pair for characters beyond the basic plane). The reader is
//! verified to recover exactly the escaped text.

use vstd::prelude::*;

use crate::textfmt::{hex4, hex_digit_char, hex_digit_val};
use crate::textfmt::push_hex4;
use crate::strutil::char_from_u32;
use crate::strutil::{scalar_char, scalar_chars};

verus! {

/// A character that stands for itself inside a quoted payload string.
pub open spec fn plain_char(c: char) -> bool {
    ' ' <= c && (c as int) < 0x7f && c != '"' && c != '\\'
}

/// The escaped spelling of one character.
pub open spec fn esc_char(c: char) -> Seq<char> {
    if plain_char(c) {
        seq![c]
    } else if (c as int) < 0x10000 {
        seq!['\\', 'u'] + hex4(c as int)
    } else {
        seq!['\\', 'u'] + hex4(0xD800 + ((c as int) - 0x10000) / 1024) + seq!['\\', 'u'] + hex4(
            0xDC00 + ((c as int) - 0x10000) % 1024,
        )
    }
}

/// The escaped spelling of a whole string.
pub open spec fn esc_str(s: Seq<char>) -> Seq<char>
    decreases s.len(),
{
    if s.len() == 0 {
        Seq::<char>::empty()
    } else {
        esc_char(s[0]) + esc_str(s.skip(1))
    }
}

/// Four hexadecimal digits starting at `i`, read as one value.
pub open spec fn parse_hex4(s: Seq<char>, i: int) -> Option<int> {
    if i + 4 <= s.len() && hex_digit_val(s[i]) >= 0 && hex_digit_val(s[i + 1]) >= 0
        && hex_digit_val(s[i + 2]) >= 0 && hex_digit_val(s[i + 3]) >= 0 {
        Some(
            hex_digit_val(s[i]) * 0x1000 + hex_digit_val(s[i + 1]) * 0x100 + hex_digit_val(
                s[i + 2],
            ) * 16 + hex_digit_val(s[i + 3]),
        )
    } else {
        None
    }
}

/// Reads escaped text from `i` up to (not including) an unescaped closing
/// quote; `None` on a bad escape or a missing quote.
pub open spec fn parse_name(s: Seq<char>, i: int) -> Option<(Seq<char>, int)>
    decreases s.len() - i,
{
    if i < 0 || i >= s.len() {
        None
    } else if s[i] == '"' {
        Some((Seq::<char>::empty(), i))
    } else if s[i] == '\\' {
        if i + 2 <= s.len() && s[i + 1] == 'u' {
            match parse_hex4(s, i + 2) {
                Some(v1) => {
                    if 0xD800 <= v1 < 0xDC00 {
                        if i + 8 <= s.len() && s[i + 6] == '\\' && s[i + 7] == 'u' {
                            match parse_hex4(s, i + 8) {
                                Some(v2) => {
                                    if 0xDC00 <= v2 < 0xE000 {
                                        let c = (0x10000 + (v1 - 0xD800) * 1024 + (v2
                                            - 0xDC00)) as char;
                                        match parse_name(s, i + 12) {
                                            Some((rest, end)) => Some((seq![c] + rest, end)),
                                            None => None,
                                        }
                                    } else {
                                        None
                                    }
                                },
                                None => None,
                            }
                        } else {
                            None
                        }
                    } else if 0xDC00 <= v1 < 0xE000 {
                        None
                    } else {
                        let c = v1 as char;
                        match parse_name(s, i + 6) {
                            Some((rest, end)) => Some((seq![c] + rest, end)),
                            None => None,
                        }
                    }
                },
                None => None,
            }
        } else {
            None
        }
    } else {
        match parse_name(s, i + 1) {
            Some((rest, end)) => Some((seq![s[i]] + rest, end)),
            None => None,
        }
    }
}

/// A hexadecimal digit character reads back as the digit it renders.
pub proof fn lemma_hex_digit_char_val(d: int)
    requires
        0 <= d <= 15,
    ensures
        hex_digit_val(hex_digit_char(d)) == d,
{
    if d < 10 {
        assert((('0' as int) + d) as char as int == ('0' as int) + d);
    } else {
        assert((('a' as int) + (d - 10)) as char as int == ('a' as int) + (d - 10));
    }
}

/// A four-digit hexadecimal rendering reads back as the value it renders.
pub proof fn lemma_hex4_roundtrip(s: Seq<char>, i: int, v: int)
    requires
        0 <= v < 0x10000,
        0 <= i,
        i + 4 <= s.len(),
        s.subrange(i, i + 4) == hex4(v),
    ensures
        parse_hex4(s, i) == Some(v),
{
    lemma_hex_digit_char_val(v / 0x1000);
    lemma_hex_digit_char_val((v / 0x100) % 16);
    lemma_hex_digit_char_val((v / 16) % 16);
    lemma_hex_digit_char_val(v % 16);
    assert(s[i] == hex4(v)[0] && s[i + 1] == hex4(v)[1] && s[i + 2] == hex4(v)[2] && s[i + 3]
        == hex4(v)[3]);
    assert((v / 0x1000) * 0x1000 + ((v / 0x100) % 16) * 0x100 + ((v / 16) % 16) * 16 + v % 16
        == v) by (nonlinear_arith)
        requires
            0 <= v < 0x10000,
    ;
}

/// Every character of an escaped string is a printable seven-bit character;
/// in particular the closing quote cannot occur inside it.
pub proof fn lemma_esc_str_chars(s: Seq<char>)
    ensures
        forall|i: int|
            0 <= i < esc_str(s).len() ==> ' ' <= #[trigger] esc_str(s)[i] && (esc_str(
                s,
            )[i] as int) < 0x7f && esc_str(s)[i] != '"',
    decreases s.len(),
{
    if s.len() > 0 {
        lemma_esc_str_chars(s.skip(1));
        lemma_esc_char_chars(s[0]);
        let e = esc_str(s);
        let h = esc_char(s[0]);
        let r = esc_str(s.skip(1));
        assert forall|i: int| 0 <= i < e.len() implies ' ' <= #[trigger] e[i] && (
        e[i] as int) < 0x7f && e[i] != '"' by {
            if i < h.len() {
                assert(e[i] == h[i]);
            } else {
                assert(e[i] == r[i - h.len()]);
            }
        }
    }
}

/// Every character of one escaped character is printable seven-bit and not
/// a quote.
proof fn lemma_esc_char_chars(c: char)
    ensures
        forall|i: int|
            0 <= i < esc_char(c).len() ==> ' ' <= #[trigger] esc_char(c)[i] && (esc_char(
                c,
            )[i] as int) < 0x7f && esc_char(c)[i] != '"',
{
    if plain_char(c) {
    } else if (c as int) < 0x10000 {
        lemma_hex4_chars(c as int);
    } else {
        lemma_hex4_chars(0xD800 + ((c as int) - 0x10000) / 1024);
        lemma_hex4_chars(0xDC00 + ((c as int) - 0x10000) % 1024);
    }
}

/// Hexadecimal digit characters are printable seven-bit and not quotes.
proof fn lemma_hex4_chars(v: int)
    requires
        0 <= v < 0x10000,
    ensures
        forall|i: int|
            0 <= i < 4 ==> ' ' <= #[trigger] hex4(v)[i] && (hex4(v)[i] as int) < 0x7f && hex4(
                v,
            )[i] != '"',
{
    lemma_hex_digit_char_printable(v / 0x1000);
    lemma_hex_digit_char_printable((v / 0x100) % 16);
    lemma_hex_digit_char_printable((v / 16) % 16);
    lemma_hex_digit_char_printable(v % 16);
    assert(hex4(v)[0] == hex_digit_char(v / 0x1000));
    assert(hex4(v)[1] == hex_digit_char((v / 0x100) % 16));
    assert(hex4(v)[2] == hex_digit_char((v / 16) % 16));
    assert(hex4(v)[3] == hex_digit_char(v % 16));
}

proof fn lemma_hex_digit_char_printable(d: int)
    requires
        0 <= d <= 15,
    ensures
        ' ' <= hex_digit_char(d),
        (hex_digit_char(d) as int) < 0x7f,
        hex_digit_char(d) != '"',
{
    if d < 10 {
        assert((('0' as int) + d) as char as int == ('0' as int) + d);
    } else {
        assert((('a' as int) + (d - 10)) as char as int == ('a' as int) + (d - 10));
    }
}

/// A window equality gives element equalities.
proof fn lemma_seq_at(s: Seq<char>, i: int, sub: Seq<char>, k: int)
    requires
        0 <= i,
        0 <= k < sub.len(),
        i + sub.len() <= s.len(),
        s.subrange(i, i + sub.len()) == sub,
    ensures
        s[i + k] == sub[k],
{
    assert(s.subrange(i, i + sub.len())[k] == s[i + k]);
}

/// The reader recovers exactly the text the escaper produced: if the escaped
/// spelling of `name` sits at `i` and is followed by a quote, reading from
/// `i` yields `name` and stops at that quote.
#[verifier::rlimit(80)]
pub proof fn lemma_parse_name_canonical(s: Seq<char>, i: int, name: Seq<char>)
    requires
        scalar_chars(name),
        0 <= i,
        i + esc_str(name).len() < s.len(),
        s.subrange(i, i + esc_str(name).len()) == esc_str(name),
        s[i + esc_str(name).len()] == '"',
    ensures
        parse_name(s, i) == Some((name, i + esc_str(name).len())),
    decreases name.len(),
{
    let e = esc_str(name);
    if name.len() == 0 {
        assert(e.len() == 0);
        assert(s[i] == '"');
        assert(parse_name(s, i) == Some((Seq::<char>::empty(), i)));
        assert(Seq::<char>::empty() =~= name);
    } else {
        let c = name[0];
        let h = esc_char(c);
        let r = esc_str(name.skip(1));
        assert(e == h + r);
        assert forall|k: int| 0 <= k < h.len() implies s[i + k] == h[k] by {
            assert(e[k] == h[k]);
            lemma_seq_at(s, i, e, k);
        }
        assert(s.subrange(i + h.len(), i + e.len()) =~= r) by {
            assert forall|k: int| 0 <= k < r.len() implies s.subrange(
                i + h.len(),
                i + e.len(),
            )[k] == r[k] by {
                lemma_seq_at(s, i, e, h.len() + k);
                assert(e[h.len() + k] == r[k]);
            }
        }
        assert(scalar_chars(name.skip(1))) by {
            assert(forall|k: int| 0 <= k < name.skip(1).len() ==> #[trigger] name.skip(1)[k]
                == name[k + 1]);
        }
        lemma_parse_name_canonical(s, i + h.len(), name.skip(1));
        assert(scalar_char(c));
        if plain_char(c) {
            assert(h == seq![c]);
            assert(h[0] == c);
            assert(s[i + 0] == c);
            assert(s[i] == c);
            assert(c != '"' && c != '\\');
            assert(seq![c] + name.skip(1) =~= name);
        } else if (c as int) < 0x10000 {
            let u = seq!['\\', 'u'];
            assert(h == u + hex4(c as int));
            assert(h[0] == '\\' && h[1] == 'u');
            assert(s[i + 0] == '\\' && s[i + 1] == 'u');
            assert(s[i] == '\\');
            assert(s.subrange(i + 2, i + 6) =~= hex4(c as int)) by {
                assert forall|k: int| 0 <= k < 4 implies s.subrange(i + 2, i + 6)[k] == hex4(
                    c as int,
                )[k] by {
                    assert(h[2 + k] == hex4(c as int)[k]);
                    assert(s[i + (2 + k)] == h[2 + k]);
                }
            }
            lemma_hex4_roundtrip(s, i + 2, c as int);
            assert(!(0xD800 <= (c as int) < 0xE000));
            assert((c as int) as char == c);
            assert(seq![c] + name.skip(1) =~= name);
        } else {
            let v = (c as int) - 0x10000;
            let v1 = 0xD800 + v / 1024;
            let v2 = 0xDC00 + v % 1024;
            assert(0 <= v < 0x100000);
            assert(0 <= v / 1024 < 1024);
            assert(0 <= v % 1024 < 1024);
            let u = seq!['\\', 'u'];
            assert(h == u + hex4(v1) + u + hex4(v2));
            assert(h.len() == 12);
            assert(h[0] == '\\' && h[1] == 'u');
            assert(h[6] == '\\' && h[7] == 'u');
            assert(s[i + 0] == '\\' && s[i + 1] == 'u');
            assert(s[i] == '\\');
            assert(s[i + 6] == '\\' && s[i + 7] == 'u');
            assert(s.subrange(i + 2, i + 6) =~= hex4(v1)) by {
                assert forall|k: int| 0 <= k < 4 implies s.subrange(i + 2, i + 6)[k] == hex4(
                    v1,
                )[k] by {
                    assert(h[2 + k] == hex4(v1)[k]);
                    assert(s[i + (2 + k)] == h[2 + k]);
                }
            }
            assert(s.subrange(i + 8, i + 12) =~= hex4(v2)) by {
                assert forall|k: int| 0 <= k < 4 implies s.subrange(i + 8, i + 12)[k] == hex4(
                    v2,
                )[k] by {
                    assert(h[8 + k] == hex4(v2)[k]);
                    assert(s[i + (8 + k)] == h[8 + k]);
                }
            }
            lemma_hex4_roundtrip(s, i + 2, v1);
            lemma_hex4_roundtrip(s, i + 8, v2);
            assert(0xD800 <= v1 < 0xDC00);
            assert(0xDC00 <= v2 < 0xE000);
            assert((v / 1024) * 1024 + v % 1024 == v);
            assert(0x10000 + (v1 - 0xD800) * 1024 + (v2 - 0xDC00) == c as int);
            assert((c as int) as char == c);
            assert(seq![c] + name.skip(1) =~= name);
        }
    }
}

/// Appends the escaped spelling of one character.
pub fn push_esc_char(out: &mut Vec<char>, c: char)
    ensures
        final(out)@ == old(out)@ + esc_char(c),
{
    let u = c as u32;
    if u >= 0x20 && u < 0x7f && c != '"' && c != '\\' {
        out.push(c);
        assert(out@ =~= old(out)@ + esc_char(c));
    } else if u < 0x10000 {
        out.push('\\');
        out.push('u');
        push_hex4(out, u);
        assert(out@ =~= old(out)@ + esc_char(c));
    } else {
        let v = u - 0x10000;
        out.push('\\');
        out.push('u');
        push_hex4(out, 0xD800 + v / 1024);
        out.push('\\');
        out.push('u');
        push_hex4(out, 0xDC00 + v % 1024);
        assert(out@ =~= old(out)@ + esc_char(c));
    }
}

/// Appends the escaped spelling of a whole string.
pub fn push_esc_str(out: &mut Vec<char>, s: &Vec<char>)
    ensures
        final(out)@ == old(out)@ + esc_str(s@),
{
    let n = s.len();
    let mut i: usize = 0;
    while i < n
        invariant
            n == s@.len(),
            i <= n,
            out@ == old(out)@ + esc_str(s@.subrange(0, i as int)),
        decreases n - i,
    {
        push_esc_char(out, s[i]);
        i = i + 1;
        proof {
            lemma_esc_str_snoc(s@.subrange(0, i as int - 1), s@[i as int - 1]);
            assert(s@.subrange(0, i as int - 1).push(s@[i as int - 1]) =~= s@.subrange(
                0,
                i as int,
            ));
            assert(out@ =~= old(out)@ + esc_str(s@.subrange(0, i as int)));
        }
    }
    assert(s@.subrange(0, n as int) =~= s@);
    assert(out@ =~= old(out)@ + esc_str(s@));
}

/// Escaping one more character appends its escaped spelling.
proof fn lemma_esc_str_snoc(s: Seq<char>, c: char)
    ensures
        esc_str(s.push(c)) == esc_str(s) + esc_char(c),
    decreases s.len(),
{
    if s.len() == 0 {
        assert(s.push(c).skip(1) =~= Seq::<char>::empty());
        assert(s.push(c)[0] == c);
        assert(esc_str(s.push(c)) == esc_char(c) + esc_str(Seq::<char>::empty()));
        assert(esc_char(c) + Seq::<char>::empty() =~= esc_char(c));
        assert(esc_str(s) + esc_char(c) =~= esc_char(c));
    } else {
        lemma_esc_str_snoc(s.skip(1), c);
        assert(s.push(c).skip(1) =~= s.skip(1).push(c));
        assert(s.push(c)[0] == s[0]);
        assert(esc_str(s.push(c)) == esc_char(s[0]) + esc_str(s.skip(1).push(c)));
        assert(esc_str(s.push(c)) =~= esc_str(s) + esc_char(c));
    }
}

/// Reads escaped text as [`parse_name`] does, returning the characters and
/// the index of the closing quote.
pub fn read_name(s: &Vec<char>, i: usize) -> (r: Option<(Vec<char>, usize)>)
    requires
        i <= s@.len(),
    ensures
        match r {
            Some(p) => parse_name(s@, i as int) == Some((p.0@, p.1 as int)) && i <= p.1
                < s@.len(),
            None => parse_name(s@, i as int) is None,
        },
    decreases s@.len() - i,
{
    let n = s.len();
    if i >= n {
        return None;
    }
    let c0 = s[i];
    if c0 == '"' {
        let v: Vec<char> = Vec::new();
        assert(v@ =~= Seq::<char>::empty());
        return Some((v, i));
    }
    if c0 == '\\' {
        if n - i < 2 || s[i + 1] != 'u' {
            return None;
        }
        let v1 = match read_hex4(s, i + 2) {
            Some(v) => v,
            None => { return None; },
        };
        if 0xD800 <= v1 && v1 < 0xDC00 {
            if n - i < 8 || s[i + 6] != '\\' || s[i + 7] != 'u' {
                return None;
            }
            let v2 = match read_hex4(s, i + 8) {
                Some(v) => v,
                None => { return None; },
            };
            if !(0xDC00 <= v2 && v2 < 0xE000) {
                return None;
            }
            let c = char_from_u32(0x10000 + (v1 - 0xD800) * 1024 + (v2 - 0xDC00));
            match read_name(s, i + 12) {
                Some((rest, end)) => {
                    let mut v: Vec<char> = Vec::new();
                    v.push(c);
                    let mut j: usize = 0;
                    let rn = rest.len();
                    while j < rn
                        invariant
                            rn == rest@.len(),
                            j <= rn,
                            v@ == seq![c] + rest@.subrange(0, j as int),
                        decreases rn - j,
                    {
                        v.push(rest[j]);
                        j = j + 1;
                        assert(v@ =~= seq![c] + rest@.subrange(0, j as int));
                    }
                    assert(v@ =~= seq![c] + rest@);
                    Some((v, end))
                },
                None => None,
            }
        } else if 0xDC00 <= v1 && v1 < 0xE000 {
            None
        } else {
            let c = char_from_u32(v1);
            match read_name(s, i + 6) {
                Some((rest, end)) => {
                    let mut v: Vec<char> = Vec::new();
                    v.push(c);
                    let mut j: usize = 0;
                    let rn = rest.len();
                    while j < rn
                        invariant
                            rn == rest@.len(),
                            j <= rn,
                            v@ == seq![c] + rest@.subrange(0, j as int),
                        decreases rn - j,
                    {
                        v.push(rest[j]);
                        j = j + 1;
                        assert(v@ =~= seq![c] + rest@.subrange(0, j as int));
                    }
                    assert(v@ =~= seq![c] + rest@);
                    Some((v, end))
                },
                None => None,
            }
        }
    } else {
        match read_name(s, i + 1) {
            Some((rest, end)) => {
                let mut v: Vec<char> = Vec::new();
                v.push(c0);
                let mut j: usize = 0;
                let rn = rest.len();
                while j < rn
                    invariant
                        rn == rest@.len(),
                        j <= rn,
                        v@ == seq![c0] + rest@.subrange(0, j as int),
                    decreases rn - j,
                {
                    v.push(rest[j]);
                    j = j + 1;
                    assert(v@ =~= seq![c0] + rest@.subrange(0, j as int));
                }
                assert(v@ =~= seq![c0] + rest@);
                Some((v, end))
            },
            None => None,
        }
    }
}

/// Reads four hexadecimal digits starting at `i`.
fn read_hex4(s: &Vec<char>, i: usize) -> (r: Option<u32>)
    requires
        i <= s@.len(),
    ensures
        match r {
            Some(v) => parse_hex4(s@, i as int) == Some(v as int) && v < 0x10000,
            None => parse_hex4(s@, i as int) is None,
        },
{
    let n = s.len();
    if n - i < 4 {
        return None;
    }
    let h0 = match hex_val_of(s[i]) {
        Some(v) => v,
        None => { return None; },
    };
    let h1 = match hex_val_of(s[i + 1]) {
        Some(v) => v,
        None => { return None; },
    };
    let h2 = match hex_val_of(s[i + 2]) {
        Some(v) => v,
        None => { return None; },
    };
    let h3 = match hex_val_of(s[i + 3]) {
        Some(v) => v,
        None => { return None; },
    };
    Some(
        (h0 as u32) * 0x1000 + (h1 as u32) * 0x100 + (h2 as u32) * 16
            + (h3 as u32),
    )
}

fn hex_val_of(c: char) -> (v: Option<u8>)
    ensures
        match v {
            Some(x) => hex_digit_val(c) == x as int && x < 16,
            None => hex_digit_val(c) == -1,
        },
{
    if c >= '0' && c <= '9' {
        Some(((c as u32) - 48) as u8)
    } else if c >= 'a' && c <= 'f' {
        Some((((c as u32) - 97) + 10) as u8)
    } else {
        None
    }
}

} // verus!
