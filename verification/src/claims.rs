//! The application payload embedded in a signed token: a user identity plus
//! an expiration instant. The payload travels as one JSON document whose
//! exact spelling is fixed here; the writer and the reader are verified
//! inverses, so a token either carries a payload this module wrote or is
//! rejected.

use vstd::prelude::*;

use crate::jsonesc::{esc_str, parse_name, push_esc_str, read_name, lemma_parse_name_canonical};
use crate::strutil::scalar_chars;
use crate::textfmt::{dec_str, dec_val, digit_val, push_dec, lemma_dec_roundtrip,
    lemma_dec_str_digits};
use crate::textfmt::push_str_chars;

verus! {

/// The identity carried by a token.
#[derive(Debug)]
pub struct User {
    pub uid: u64,
    pub name: String,
}

/// What a `User` is mathematically.
pub struct UserV {
    pub uid: u64,
    pub name: Seq<char>,
}

impl View for User {
    type V = UserV;

    open spec fn view(&self) -> UserV {
        UserV { uid: self.uid, name: self.name@ }
    }
}

/// A token payload: an identity and the instant (seconds since the epoch)
/// at which the token stops being valid.
#[derive(Debug)]
pub struct Claims {
    pub exp: u64,
    pub user: User,
}

/// What a `Claims` value is mathematically.
pub struct ClaimsV {
    pub exp: u64,
    pub user: UserV,
}

impl View for Claims {
    type V = ClaimsV;

    open spec fn view(&self) -> ClaimsV {
        ClaimsV { exp: self.exp, user: self.user@ }
    }
}

impl Claims {
    /// A payload for `user` that expires at `exp`.
    pub fn new(user: User, exp: u64) -> (c: Claims)
        ensures
            c@.exp == exp,
            c@.user == user@,
    {
        Claims { exp, user }
    }
}

/// The JSON spelling of a payload.
pub open spec fn payload(c: ClaimsV) -> Seq<char> {
    "{\"exp\":"@ + dec_str(c.exp as int) + ",\"user\":{\"uid\":"@ + dec_str(c.user.uid as int)
        + ",\"name\":\""@ + esc_str(c.user.name) + "\"}}"@
}

/// A decimal digit character.
pub open spec fn is_digit(c: char) -> bool {
    '0' <= c && c <= '9'
}

/// The first position at or after `i` that does not hold a digit.
pub open spec fn digit_run_end(s: Seq<char>, i: int) -> int
    decreases s.len() - i,
{
    if 0 <= i < s.len() && is_digit(s[i]) {
        digit_run_end(s, i + 1)
    } else {
        i
    }
}

/// Reads a number at `i`: at least one digit, value within `u64`.
pub open spec fn parse_num(s: Seq<char>, i: int) -> Option<(u64, int)> {
    let j = digit_run_end(s, i);
    if j > i && dec_val(s.subrange(i, j)) <= u64::MAX {
        Some((dec_val(s.subrange(i, j)) as u64, j))
    } else {
        None
    }
}

/// Reads a whole payload document; `None` unless the document has exactly
/// the shape the writer produces (up to the spelling freedom of `\u`
/// escapes inside the name).
pub open spec fn parse_payload(s: Seq<char>) -> Option<ClaimsV> {
    let l1 = "{\"exp\":"@;
    let l2 = ",\"user\":{\"uid\":"@;
    let l3 = ",\"name\":\""@;
    let l4 = "\"}}"@;
    if l1.len() <= s.len() && s.subrange(0, l1.len() as int) == l1 {
        match parse_num(s, l1.len() as int) {
            Some((exp, i2)) => {
                if i2 + l2.len() <= s.len() && s.subrange(i2, i2 + l2.len()) == l2 {
                    match parse_num(s, i2 + l2.len()) {
                        Some((uid, i3)) => {
                            if i3 + l3.len() <= s.len() && s.subrange(i3, i3 + l3.len()) == l3 {
                                match parse_name(s, i3 + l3.len()) {
                                    Some((name, i4)) => {
                                        if i4 + l4.len() == s.len() && s.subrange(i4, s.len() as int)
                                            == l4 {
                                            Some(
                                                ClaimsV {
                                                    exp,
                                                    user: UserV { uid, name },
                                                },
                                            )
                                        } else {
                                            None
                                        }
                                    },
                                    None => None,
                                }
                            } else {
                                None
                            }
                        },
                        None => None,
                    }
                } else {
                    None
                }
            },
            None => None,
        }
    } else {
        None
    }
}

/// Writes the JSON spelling of a payload.
pub fn write_payload(c: &Claims) -> (out: Vec<char>)
    ensures
        out@ == payload(c@),
        scalar_chars(c@.user.name),
{
    let mut out: Vec<char> = Vec::new();
    push_str_chars(&mut out, "{\"exp\":");
    push_dec(&mut out, c.exp);
    push_str_chars(&mut out, ",\"user\":{\"uid\":");
    push_dec(&mut out, c.user.uid);
    push_str_chars(&mut out, ",\"name\":\"");
    let name_chars = crate::strutil::str_to_chars(c.user.name.as_str());
    push_esc_str(&mut out, &name_chars);
    push_str_chars(&mut out, "\"}}");
    assert(out@ =~= payload(c@));
    out
}

fn expect_lit(s: &Vec<char>, i: usize, lit: &str) -> (r: Option<usize>)
    requires
        i <= s@.len(),
    ensures
        match r {
            Some(j) => j == i + lit@.len() && j <= s@.len() && s@.subrange(i as int, j as int)
                == lit@,
            None => !(i + lit@.len() <= s@.len() && s@.subrange(i as int, i + lit@.len())
                == lit@),
        },
{
    let n = s.len();
    let m = lit.unicode_len();
    if n - i < m {
        return None;
    }
    let mut k: usize = 0;
    while k < m
        invariant
            n == s@.len(),
            m == lit@.len(),
            i + m <= n,
            k <= m,
            forall|t: int| 0 <= t < k ==> s@[i + t] == lit@[t],
        decreases m - k,
    {
        if s[i + k] != lit.get_char(k) {
            proof {
                let w = s@.subrange(i as int, i + lit@.len());
                assert(w[k as int] == s@[i + k]);
                assert(w != lit@);
            }
            return None;
        }
        k = k + 1;
    }
    proof {
        let w = s@.subrange(i as int, i + lit@.len());
        assert forall|t: int| 0 <= t < m implies w[t] == lit@[t] by {
            assert(w[t] == s@[i + t]);
        }
        assert(w =~= lit@);
    }
    Some(i + m)
}

fn read_num(s: &Vec<char>, i: usize) -> (r: Option<(u64, usize)>)
    requires
        i <= s@.len(),
    ensures
        match r {
            Some(p) => parse_num(s@, i as int) == Some((p.0, p.1 as int)) && i < p.1 <= s@.len(),
            None => parse_num(s@, i as int) is None,
        },
{
    let n = s.len();
    let mut j: usize = i;
    while j < n && is_digit_x(s[j])
        invariant
            n == s@.len(),
            i <= j <= n,
            forall|t: int| i <= t < j ==> is_digit(#[trigger] s@[t]),
            digit_run_end(s@, i as int) == digit_run_end(s@, j as int),
        decreases n - j,
    {
        proof {
            lemma_digit_run_step(s@, j as int);
        }
        j = j + 1;
    }
    proof {
        assert(digit_run_end(s@, j as int) == j as int);
    }
    if j == i {
        return None;
    }
    let mut acc: u64 = 0;
    let mut over: bool = false;
    let mut k: usize = i;
    proof {
        assert(s@.subrange(i as int, i as int) =~= Seq::<char>::empty());
    }
    while k < j
        invariant
            n == s@.len(),
            i <= k <= j <= n,
            forall|t: int| i <= t < j ==> is_digit(#[trigger] s@[t]),
            !over ==> acc as int == dec_val(s@.subrange(i as int, k as int)),
            over ==> dec_val(s@.subrange(i as int, k as int)) > u64::MAX,
        decreases j - k,
    {
        let c = s[k];
        let d: u64 = (c as u32 as u64) - 48;
        proof {
            assert(is_digit(s@[k as int]));
            assert(digit_val(c) == d as int);
            assert(s@.subrange(i as int, k as int + 1).drop_last() =~= s@.subrange(
                i as int,
                k as int,
            ));
            assert(s@.subrange(i as int, k as int + 1).last() == c);
            assert(dec_val(s@.subrange(i as int, k as int + 1)) == dec_val(
                s@.subrange(i as int, k as int),
            ) * 10 + d as int);
        }
        if !over {
            if acc > (u64::MAX - d) / 10 {
                over = true;
                proof {
                    assert(acc as int * 10 + d as int > u64::MAX);
                }
            } else {
                acc = acc * 10 + d;
            }
        } else {
            proof {
                lemma_dec_val_nonneg(s@.subrange(i as int, k as int));
                assert(dec_val(s@.subrange(i as int, k as int + 1)) > u64::MAX);
            }
        }
        k = k + 1;
    }
    if over {
        return None;
    }
    proof {
        lemma_dec_roundtrip(acc as int);
    }
    Some((acc, j))
}

/// The value of a digit string is never negative.
proof fn lemma_dec_val_nonneg(s: Seq<char>)
    requires
        forall|t: int| 0 <= t < s.len() ==> is_digit(#[trigger] s[t]),
    ensures
        dec_val(s) >= 0,
    decreases s.len(),
{
    if s.len() > 0 {
        lemma_dec_val_nonneg(s.drop_last());
        assert(forall|t: int|
            0 <= t < s.drop_last().len() ==> is_digit(#[trigger] s.drop_last()[t]));
        assert(is_digit(s.last()));
        assert(digit_val(s.last()) >= 0);
    }
}

fn is_digit_x(c: char) -> (b: bool)
    ensures
        b == is_digit(c),
{
    c >= '0' && c <= '9'
}

/// One step of a digit run.
proof fn lemma_digit_run_step(s: Seq<char>, i: int)
    requires
        0 <= i < s.len(),
        is_digit(s[i]),
    ensures
        digit_run_end(s, i) == digit_run_end(s, i + 1),
{
}

/// A run of digits followed by a non-digit ends exactly at the non-digit.
proof fn lemma_digit_run(s: Seq<char>, i: int, j: int)
    requires
        0 <= i <= j <= s.len(),
        forall|t: int| i <= t < j ==> is_digit(#[trigger] s[t]),
        j == s.len() || !is_digit(s[j]),
    ensures
        digit_run_end(s, i) == j,
    decreases j - i,
{
    if i < j {
        lemma_digit_run(s, i + 1, j);
    }
}

/// A canonical number at `o`, followed by a non-digit, reads back as its
/// value.
proof fn lemma_parse_num_at(s: Seq<char>, o: int, v: u64)
    requires
        0 <= o,
        o + dec_str(v as int).len() < s.len(),
        s.subrange(o, o + dec_str(v as int).len()) == dec_str(v as int),
        !is_digit(s[o + dec_str(v as int).len()]),
    ensures
        parse_num(s, o) == Some((v, o + dec_str(v as int).len())),
{
    let d = dec_str(v as int);
    let j = o + d.len();
    lemma_dec_str_digits(v as int);
    assert forall|t: int| o <= t < j implies is_digit(#[trigger] s[t]) by {
        assert(s.subrange(o, j)[t - o] == s[t]);
        assert(0 <= digit_val(d[t - o]) <= 9);
        assert(is_digit(d[t - o]));
    }
    lemma_digit_run(s, o, j);
    lemma_dec_roundtrip(v as int);
    assert(dec_val(s.subrange(o, j)) == v);
}

/// Reads a whole payload document as [`parse_payload`] does.
pub fn read_payload(s: &Vec<char>) -> (r: Option<Claims>)
    ensures
        match r {
            Some(c) => parse_payload(s@) == Some(c@),
            None => parse_payload(s@) is None,
        },
{
    let i1 = match expect_lit(s, 0, "{\"exp\":") {
        Some(j) => j,
        None => { return None; },
    };
    let (exp, i2) = match read_num(s, i1) {
        Some(p) => p,
        None => { return None; },
    };
    let i2b = match expect_lit(s, i2, ",\"user\":{\"uid\":") {
        Some(j) => j,
        None => { return None; },
    };
    let (uid, i3) = match read_num(s, i2b) {
        Some(p) => p,
        None => { return None; },
    };
    let i3b = match expect_lit(s, i3, ",\"name\":\"") {
        Some(j) => j,
        None => { return None; },
    };
    let (name_chars, i4) = match read_name(s, i3b) {
        Some(p) => p,
        None => { return None; },
    };
    match expect_lit(s, i4, "\"}}") {
        Some(j) => {
            if j != s.len() {
                proof {
                    let l4 = "\"}}"@;
                    assert(s@.subrange(i4 as int, i4 + l4.len()) == l4);
                    assert(!(i4 + l4.len() == s@.len() && s@.subrange(i4 as int, s@.len() as int)
                        == l4));
                }
                return None;
            }
            let name = crate::strutil::chars_to_string(&name_chars);
            let user = User { uid, name };
            let c = Claims { exp, user };
            Some(c)
        },
        None => None,
    }
}

/// Reading back a written payload yields exactly the payload's claims: the
/// writer and the reader are inverses.
pub proof fn lemma_payload_roundtrip(cv: ClaimsV)
    requires
        scalar_chars(cv.user.name),
    ensures
        parse_payload(payload(cv)) == Some(cv),
{
    let l1 = "{\"exp\":"@;
    let l2 = ",\"user\":{\"uid\":"@;
    let l3 = ",\"name\":\""@;
    let l4 = "\"}}"@;
    reveal_strlit("{\"exp\":");
    reveal_strlit(",\"user\":{\"uid\":");
    reveal_strlit(",\"name\":\"");
    reveal_strlit("\"}}");
    let d1 = dec_str(cv.exp as int);
    let d2 = dec_str(cv.user.uid as int);
    let e = esc_str(cv.user.name);
    let s = payload(cv);
    let p1 = l1 + d1;
    let p2 = p1 + l2;
    let p3 = p2 + d2;
    let p4 = p3 + l3;
    let p5 = p4 + e;
    assert(s == p5 + l4);
    let o1 = l1.len() as int;
    let o2 = o1 + d1.len();
    let o3 = o2 + l2.len();
    let o4 = o3 + d2.len();
    let o5 = o4 + l3.len();
    let o6 = o5 + e.len();
    assert(s.len() == o6 + l4.len());
    assert forall|k: int| 0 <= k < s.len() implies #[trigger] s[k] == (if k < o1 {
        l1[k]
    } else if k < o2 {
        d1[k - o1]
    } else if k < o3 {
        l2[k - o2]
    } else if k < o4 {
        d2[k - o3]
    } else if k < o5 {
        l3[k - o4]
    } else if k < o6 {
        e[k - o5]
    } else {
        l4[k - o6]
    }) by {}
    assert(s.subrange(0, o1) =~= l1);
    assert(s.subrange(o2, o3) =~= l2);
    assert(s.subrange(o4, o5) =~= l3);
    assert(s.subrange(o6, s.len() as int) =~= l4);
    assert(s.subrange(o1, o2) =~= d1);
    assert(s.subrange(o3, o4) =~= d2);
    assert(s.subrange(o5, o6) =~= e);
    assert(l2[0] == ',');
    assert(s[o2] == ',');
    assert(!is_digit(s[o2]));
    lemma_parse_num_at(s, o1, cv.exp);
    assert(l3[0] == ',');
    assert(s[o4] == ',');
    assert(!is_digit(s[o4]));
    lemma_parse_num_at(s, o3, cv.user.uid);
    assert(l4[0] == '"');
    assert(s[o6] == '"');
    lemma_parse_name_canonical(s, o5, cv.user.name);
    assert(parse_payload(s) == Some(ClaimsV { exp: cv.exp, user: UserV { uid: cv.user.uid, name: cv.user.name } }));
    assert(ClaimsV { exp: cv.exp, user: UserV { uid: cv.user.uid, name: cv.user.name } } == cv);
}

} // verus!
