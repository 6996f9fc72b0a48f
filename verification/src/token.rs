//! The signed expiring token codec: a compact three-part string
//! `header.payload.signature` under HMAC-SHA256. The payload is the JSON
//! spelling of a [`Claims`] value; the signature is computed and checked by
//! the `jsonwebtoken` crate behind two trusted wrappers, and everything
//! around the two calls — framing, base64, the payload document, the
//! expiration check — is verified.

use vstd::prelude::*;
use vstd::string::StringSliceAdditionalSpecFns;
use vstd::string::StrSliceExecFns;

use crate::b64::{b64_enc, b64_encode, b64_decode, lemma_b64_enc_chars, lemma_b64_roundtrip};
use crate::claims::{Claims, ClaimsV, payload, parse_payload, write_payload, read_payload,
    lemma_payload_roundtrip};
use crate::jsonesc::lemma_esc_str_chars;
use crate::strutil::{all_ascii, ascii_bytes, bytes_chars, bytes_to_chars, chars_to_bytes,
    chars_to_string, scalar_chars, str_to_chars};
use crate::textfmt::{digit_val, lemma_dec_str_digits, dec_str, push_all};

verus! {

/// Why a token was rejected; every variant surfaces as an authentication
/// failure.
#[derive(Clone, Copy, Debug, PartialEq, Eq, Structural)]
pub enum AuthError {
    /// Not three dot-separated parts around this codec's header, or a
    /// payload that is not a canonically spelled claims document.
    Malformed,
    /// The signature does not match this codec's secret.
    BadSignature,
    /// The embedded expiration is not in the future.
    Expired,
}

/// The base64url-encoded HMAC-SHA256 signature of `message` under `secret`,
/// as the `jsonwebtoken` crate computes it. A pure function of its
/// arguments: the same secret and message always give the same signature.
pub uninterp spec fn sig_of(secret: Seq<u8>, message: Seq<u8>) -> Seq<char>;

/// Relies on `jsonwebtoken::crypto::sign` with `Algorithm::HS256` and a
/// secret `EncodingKey`: it returns the base64url encoding of the
/// HMAC-SHA256 tag of `message`, and cannot fail for this key kind (the
/// HMAC backend accepts secrets of any length and signing is infallible).
#[verifier::external_body]
fn sign_hs256(secret: &Vec<u8>, message: &Vec<u8>) -> (sig: String)
    ensures
        sig@ == sig_of(secret@, message@),
{
    jsonwebtoken::crypto::sign(
        message.as_slice(),
        &jsonwebtoken::EncodingKey::from_secret(secret.as_slice()),
        jsonwebtoken::Algorithm::HS256,
    ).unwrap()
}

/// Relies on `jsonwebtoken::crypto::verify` with `Algorithm::HS256`: it
/// recomputes the HMAC-SHA256 tag of `message` and compares it against the
/// base64url-decoded `signature`; the decoder rejects non-canonical
/// encodings, so the comparison succeeds exactly on the one string that
/// `jsonwebtoken::crypto::sign` would return. `Err` (undecodable signature
/// text) is reported as a mismatch.
#[verifier::external_body]
fn verify_hs256(signature: &str, secret: &Vec<u8>, message: &Vec<u8>) -> (ok: bool)
    ensures
        ok == (signature@ == sig_of(secret@, message@)),
{
    matches!(
        jsonwebtoken::crypto::verify(
            signature,
            message.as_slice(),
            &jsonwebtoken::DecodingKey::from_secret(secret.as_slice()),
            jsonwebtoken::Algorithm::HS256,
        ),
        Ok(true)
    )
}

/// The fixed JSON header naming the signing scheme.
pub open spec fn header_chars() -> Seq<char> {
    "{\"typ\":\"JWT\",\"alg\":\"HS256\"}"@
}

/// The header as bytes.
pub open spec fn header_bytes() -> Seq<u8> {
    ascii_bytes(header_chars())
}

/// The part of a token that is signed: encoded header, a dot, encoded
/// payload.
pub open spec fn signing_input(c: ClaimsV) -> Seq<char> {
    b64_enc(header_bytes()) + seq!['.'] + b64_enc(ascii_bytes(payload(c)))
}

/// The complete token for claims `c` under `secret`.
pub open spec fn token_spec(secret: Seq<u8>, c: ClaimsV) -> Seq<char> {
    signing_input(c) + seq!['.'] + sig_of(secret, ascii_bytes(signing_input(c)))
}

/// A token `decode` accepts at time `now`: the one this codec's `encode`
/// produces for claims that have not yet expired.
pub open spec fn valid_token(secret: Seq<u8>, token: Seq<char>, now: u64, cv: ClaimsV) -> bool {
    scalar_chars(cv.user.name) && token == token_spec(secret, cv) && cv.exp > now
}

/// What `decode` returns, as a mathematical function: the claims whose
/// token this is, when not yet expired, else nothing.
pub open spec fn decode_spec(secret: Seq<u8>, token: Seq<char>, now: u64) -> Option<ClaimsV> {
    if exists|cv: ClaimsV| valid_token(secret, token, now, cv) {
        Some(choose|cv: ClaimsV| valid_token(secret, token, now, cv))
    } else {
        None
    }
}

/// The header characters are seven-bit.
proof fn lemma_header_ascii()
    ensures
        all_ascii(header_chars()),
        header_chars().len() == 27,
{
    reveal_strlit("{\"typ\":\"JWT\",\"alg\":\"HS256\"}");
    let s = header_chars();
    assert(s.len() == 27);
    assert forall|k: int| 0 <= k < s.len() implies '\0' <= (#[trigger] s[k]) && s[k]
        < 128 by {}
}

/// Every character of a payload document is seven-bit.
proof fn lemma_payload_ascii(c: ClaimsV)
    ensures
        all_ascii(payload(c)),
{
    reveal_strlit("{\"exp\":");
    reveal_strlit(",\"user\":{\"uid\":");
    reveal_strlit(",\"name\":\"");
    reveal_strlit("\"}}");
    let l1 = "{\"exp\":"@;
    let l2 = ",\"user\":{\"uid\":"@;
    let l3 = ",\"name\":\""@;
    let l4 = "\"}}"@;
    let d1 = dec_str(c.exp as int);
    let d2 = dec_str(c.user.uid as int);
    let e = crate::jsonesc::esc_str(c.user.name);
    let s = payload(c);
    lemma_dec_str_digits(c.exp as int);
    lemma_dec_str_digits(c.user.uid as int);
    lemma_esc_str_chars(c.user.name);
    assert(forall|k: int| 0 <= k < l1.len() ==> '\0' <= (#[trigger] l1[k]) && l1[k] < 128);
    assert(forall|k: int| 0 <= k < l2.len() ==> '\0' <= (#[trigger] l2[k]) && l2[k] < 128);
    assert(forall|k: int| 0 <= k < l3.len() ==> '\0' <= (#[trigger] l3[k]) && l3[k] < 128);
    assert(forall|k: int| 0 <= k < l4.len() ==> '\0' <= (#[trigger] l4[k]) && l4[k] < 128);
    assert forall|k: int| 0 <= k < d1.len() implies '\0' <= (#[trigger] d1[k]) && d1[k]
        < 128 by {
        assert(0 <= digit_val(d1[k]) <= 9);
    }
    assert forall|k: int| 0 <= k < d2.len() implies '\0' <= (#[trigger] d2[k]) && d2[k]
        < 128 by {
        assert(0 <= digit_val(d2[k]) <= 9);
    }
    let o1 = l1.len() as int;
    let o2 = o1 + d1.len();
    let o3 = o2 + l2.len();
    let o4 = o3 + d2.len();
    let o5 = o4 + l3.len();
    let o6 = o5 + e.len();
    assert forall|k: int| 0 <= k < s.len() implies '\0' <= (#[trigger] s[k]) && s[k]
        < 128 by {
        assert(s[k] == (if k < o1 {
            l1[k]
        } else if k < o2 {
            d1[k - o1]
        } else if k < o3 {
            l2[k - o2]
        } else if k < o4 {
            d2[k - o3]
        } else if k < o5 {
            l3[k - o4]
        } else if k < o6 {
            e[k - o5]
        } else {
            l4[k - o6]
        }));
    }
}

/// Index-by-index shape of a token: where its two framing dots sit, and
/// that no earlier dot precedes either of them.
proof fn lemma_token_shape(secret: Seq<u8>, c: ClaimsV)
    ensures
        ({
            let h = b64_enc(header_bytes());
            let p = b64_enc(ascii_bytes(payload(c)));
            let g = sig_of(secret, ascii_bytes(signing_input(c)));
            let t = token_spec(secret, c);
            let hl = h.len() as int;
            let pl = p.len() as int;
            &&& t.len() == hl + 1 + pl + 1 + g.len()
            &&& t[hl] == '.'
            &&& t[hl + 1 + pl] == '.'
            &&& forall|k: int| 0 <= k < hl ==> #[trigger] t[k] == h[k] && t[k] != '.'
            &&& forall|k: int|
                hl < k < hl + 1 + pl ==> #[trigger] t[k] == p[k - hl - 1] && t[k] != '.'
            &&& forall|k: int|
                hl + 1 + pl < k < t.len() ==> #[trigger] t[k] == g[k - (hl + 2 + pl)]
        }),
{
    let h = b64_enc(header_bytes());
    let p = b64_enc(ascii_bytes(payload(c)));
    let g = sig_of(secret, ascii_bytes(signing_input(c)));
    let t = token_spec(secret, c);
    let hl = h.len() as int;
    let pl = p.len() as int;
    lemma_b64_enc_chars(header_bytes());
    lemma_b64_enc_chars(ascii_bytes(payload(c)));
    assert(t == (h + seq!['.'] + p) + seq!['.'] + g);
    assert(t.len() == hl + 1 + pl + 1 + g.len());
    assert forall|k: int| 0 <= k < hl implies #[trigger] t[k] == h[k] && t[k] != '.' by {
        assert(t[k] == h[k]);
        assert(0 <= crate::b64::b64_val(h[k]) < 64);
    }
    assert(t[hl] == '.');
    assert forall|k: int| hl < k < hl + 1 + pl implies #[trigger] t[k] == p[k - hl - 1] && t[k]
        != '.' by {
        assert(t[k] == p[k - hl - 1]);
        assert(0 <= crate::b64::b64_val(p[k - hl - 1]) < 64);
    }
    assert(t[hl + 1 + pl] == '.');
    assert forall|k: int| hl + 1 + pl < k < t.len() implies #[trigger] t[k] == g[k - (hl + 2
        + pl)] by {}
}

/// Finds the first two dots: `Some((i, j))` with `i` the first dot and `j`
/// the first dot after it; `None` when the text has fewer than two dots.
fn split_token(chars: &Vec<char>) -> (r: Option<(usize, usize)>)
    ensures
        match r {
            Some(p) => {
                let (i, j) = p;
                &&& i < j < chars@.len()
                &&& chars@[i as int] == '.'
                &&& chars@[j as int] == '.'
                &&& forall|k: int| 0 <= k < i ==> chars@[k] != '.'
                &&& forall|k: int| i < k < j ==> chars@[k] != '.'
            },
            None => forall|i: int, j: int|
                0 <= i < j < chars@.len() ==> !(chars@[i] == '.' && chars@[j] == '.'),
        },
{
    let n = chars.len();
    let mut i: usize = 0;
    while i < n && chars[i] != '.'
        invariant
            n == chars@.len(),
            i <= n,
            forall|k: int| 0 <= k < i ==> chars@[k] != '.',
        decreases n - i,
    {
        i = i + 1;
    }
    if i == n {
        return None;
    }
    let mut j: usize = i + 1;
    while j < n && chars[j] != '.'
        invariant
            n == chars@.len(),
            i < j <= n,
            chars@[i as int] == '.',
            forall|k: int| 0 <= k < i ==> chars@[k] != '.',
            forall|k: int| i < k < j ==> chars@[k] != '.',
        decreases n - j,
    {
        j = j + 1;
    }
    if j == n {
        proof {
            assert forall|a: int, b: int|
                0 <= a < b < chars@.len() implies !(chars@[a] == '.' && chars@[b]
                == '.') by {
                if chars@[a] == '.' && chars@[b] == '.' {
                    assert(a >= i as int);
                    assert(a == i as int || a > i as int);
                    assert(b > i as int);
                }
            }
        }
        return None;
    }
    Some((i, j))
}

/// Element-for-element equality of two character buffers.
fn chars_eq(a: &Vec<char>, b: &Vec<char>) -> (r: bool)
    ensures
        r == (a@ == b@),
{
    let n = a.len();
    if n != b.len() {
        proof {
            assert(a@.len() != b@.len());
        }
        return false;
    }
    let mut k: usize = 0;
    while k < n
        invariant
            n == a@.len() == b@.len(),
            k <= n,
            forall|t: int| 0 <= t < k ==> a@[t] == b@[t],
        decreases n - k,
    {
        if a[k] != b[k] {
            return false;
        }
        k = k + 1;
    }
    proof {
        assert(a@ =~= b@);
    }
    true
}

/// The stateless codec configuration: a signing secret and how long a
/// freshly issued token stays valid, in seconds.
pub struct TokenCodec {
    pub secret: Vec<u8>,
    pub duration: u64,
}

impl TokenCodec {
    /// A codec over the UTF-8 bytes of `secret`, issuing tokens valid for
    /// `duration` seconds.
    pub fn new(secret: &str, duration: u64) -> (c: TokenCodec)
        ensures
            c.secret@ == secret.spec_bytes(),
            c.duration == duration,
    {
        TokenCodec { secret: secret.as_bytes_vec(), duration }
    }

    /// Builds the header and payload segments and the signature over them.
    pub fn encode(&self, claims: &Claims) -> (t: String)
        ensures
            t@ == token_spec(self.secret@, claims@),
            scalar_chars(claims@.user.name),
    {
        proof {
            lemma_header_ascii();
        }
        let hdr_chars = str_to_chars("{\"typ\":\"JWT\",\"alg\":\"HS256\"}");
        let hdr_bytes = chars_to_bytes(&hdr_chars);
        let h64 = b64_encode(&hdr_bytes);
        let pl_chars = write_payload(claims);
        proof {
            lemma_payload_ascii(claims@);
        }
        let pl_bytes = chars_to_bytes(&pl_chars);
        let p64 = b64_encode(&pl_bytes);
        let mut signing: Vec<char> = Vec::new();
        push_all(&mut signing, &h64);
        signing.push('.');
        push_all(&mut signing, &p64);
        assert(signing@ =~= signing_input(claims@));
        proof {
            lemma_signing_ascii(claims@);
        }
        let msg = chars_to_bytes(&signing);
        let sig = sign_hs256(&self.secret, &msg);
        let mut tok: Vec<char> = Vec::new();
        push_all(&mut tok, &signing);
        tok.push('.');
        let mut t = chars_to_string(&tok);
        t.append(sig.as_str());
        assert(t@ =~= token_spec(self.secret@, claims@));
        t
    }

    /// Checks framing, payload spelling, signature, and expiration, in that
    /// order. Succeeds exactly on the tokens this codec's `encode` produces
    /// for claims that have not yet expired; `Ok` returns those claims.
    #[verifier::rlimit(100)]
    pub fn decode(&self, token: &str, now: u64) -> (r: Result<Claims, AuthError>)
        ensures
            (match r {
                Ok(c) => token@ == token_spec(self.secret@, c@) && c@.exp > now && scalar_chars(
                    c@.user.name,
                ),
                Err(_) => true,
            }),
            forall|cv: ClaimsV|
                (scalar_chars(cv.user.name) && token@ == token_spec(self.secret@, cv) && cv.exp
                    > now) ==> (r is Ok && r->Ok_0@ == cv),
            (r is Err && r->Err_0 is Expired) ==> exists|cv: ClaimsV|
                scalar_chars(#[trigger] cv.user.name) && token@ == token_spec(self.secret@, cv)
                    && cv.exp <= now,
            (r is Err && r->Err_0 is BadSignature) ==> exists|cv: ClaimsV, g: Seq<char>|
                scalar_chars(cv.user.name) && token@ == #[trigger] (signing_input(cv)
                    + seq!['.'] + g) && g != sig_of(self.secret@, ascii_bytes(signing_input(cv))),
    {
        let chars = str_to_chars(token);
        let split = split_token(&chars);
        let (i, j) = match split {
            Some(p) => p,
            None => {
                proof {
                    assert forall|cv: ClaimsV|
                        (scalar_chars(cv.user.name) && token@ == token_spec(self.secret@, cv)
                            && cv.exp > now) implies false by {
                        lemma_token_shape(self.secret@, cv);
                        let h = b64_enc(header_bytes());
                        let p = b64_enc(ascii_bytes(payload(cv)));
                        let hl = h.len() as int;
                        let pl = p.len() as int;
                        assert(chars@[hl] == '.');
                        assert(chars@[hl + 1 + pl] == '.');
                    }
                }
                return Err(AuthError::Malformed);
            },
        };
        let ghost gi = i as int;
        let ghost gj = j as int;
        proof {
            lemma_header_ascii();
        }
        let hdr_chars = str_to_chars("{\"typ\":\"JWT\",\"alg\":\"HS256\"}");
        let hdr_bytes = chars_to_bytes(&hdr_chars);
        let h64 = b64_encode(&hdr_bytes);
        let n = chars.len();
        let mut hseg: Vec<char> = Vec::new();
        let mut k: usize = 0;
        while k < i
            invariant
                i < n == chars@.len(),
                k <= i,
                hseg@ == chars@.subrange(0, k as int),
            decreases i - k,
        {
            hseg.push(chars[k]);
            k = k + 1;
            assert(hseg@ =~= chars@.subrange(0, k as int));
        }
        let mut pseg: Vec<char> = Vec::new();
        let mut k2: usize = i + 1;
        while k2 < j
            invariant
                i < j < n == chars@.len(),
                gi == i as int,
                i + 1 <= k2 <= j,
                pseg@ == chars@.subrange(gi + 1, k2 as int),
            decreases j - k2,
        {
            pseg.push(chars[k2]);
            k2 = k2 + 1;
            assert(pseg@ =~= chars@.subrange(gi + 1, k2 as int));
        }
        let mut gseg: Vec<char> = Vec::new();
        let mut k3: usize = j + 1;
        while k3 < n
            invariant
                j < n == chars@.len(),
                gj == j as int,
                j + 1 <= k3 <= n,
                gseg@ == chars@.subrange(gj + 1, k3 as int),
            decreases n - k3,
        {
            gseg.push(chars[k3]);
            k3 = k3 + 1;
            assert(gseg@ =~= chars@.subrange(gj + 1, k3 as int));
        }
        proof {
            assert(hseg@ == chars@.subrange(0, gi));
            assert(pseg@ == chars@.subrange(gi + 1, gj));
            assert(gseg@ == chars@.subrange(gj + 1, chars@.len() as int));
        }
        // A mismatch at any later stage contradicts well-formedness: for a
        // well-formed token the dot positions pin all three segments.
        proof {
            assert forall|cv: ClaimsV|
                (scalar_chars(cv.user.name) && token@ == token_spec(self.secret@, cv) && cv.exp
                    > now) implies (hseg@ == b64_enc(header_bytes()) && pseg@ == b64_enc(
                ascii_bytes(payload(cv)),
            ) && gseg@ == sig_of(self.secret@, ascii_bytes(signing_input(cv)))) by {
                lemma_wf_segments(self.secret@, cv, chars@, gi, gj);
            }
        }
        if !chars_eq(&hseg, &h64) {
            return Err(AuthError::Malformed);
        }
        let pl_bytes = match b64_decode(&pseg) {
            Some(b) => b,
            None => {
                proof {
                    assert forall|cv: ClaimsV|
                        (scalar_chars(cv.user.name) && token@ == token_spec(self.secret@, cv)
                            && cv.exp > now) implies false by {
                        lemma_wf_payload(cv);
                    }
                }
                return Err(AuthError::Malformed);
            },
        };
        let pl_chars = match bytes_to_chars(&pl_bytes) {
            Some(v) => v,
            None => {
                proof {
                    assert forall|cv: ClaimsV|
                        (scalar_chars(cv.user.name) && token@ == token_spec(self.secret@, cv)
                            && cv.exp > now) implies false by {
                        lemma_wf_payload(cv);
                        assert(pl_bytes@ == ascii_bytes(payload(cv)));
                    }
                }
                return Err(AuthError::Malformed);
            },
        };
        let claims = match read_payload(&pl_chars) {
            Some(c) => c,
            None => {
                proof {
                    assert forall|cv: ClaimsV|
                        (scalar_chars(cv.user.name) && token@ == token_spec(self.secret@, cv)
                            && cv.exp > now) implies false by {
                        lemma_wf_payload(cv);
                        assert(pl_bytes@ == ascii_bytes(payload(cv)));
                        assert(pl_chars@ == payload(cv));
                    }
                }
                return Err(AuthError::Malformed);
            },
        };
        // Canonical-form check: only the exact spelling `encode` produces
        // is accepted, so a successful decode pins the whole token.
        let expected = write_payload(&claims);
        if !chars_eq(&pl_chars, &expected) {
            proof {
                assert forall|cv: ClaimsV|
                    (scalar_chars(cv.user.name) && token@ == token_spec(self.secret@, cv)
                        && cv.exp > now) implies false by {
                    lemma_wf_payload(cv);
                    assert(pl_bytes@ == ascii_bytes(payload(cv)));
                    assert(pl_chars@ == payload(cv));
                    assert(claims@ == cv);
                }
            }
            return Err(AuthError::Malformed);
        }
        proof {
            assert(pl_chars@ == payload(claims@));
            assert forall|t: int| 0 <= t < pl_bytes@.len() implies pl_bytes@[t]
                == ascii_bytes(payload(claims@))[t] by {
                assert(pl_chars@[t] == pl_bytes@[t] as char);
                assert(pl_bytes@[t] < 128);
            }
            assert(pl_bytes@ =~= ascii_bytes(payload(claims@)));
            crate::b64::lemma_b64_canonical(pseg@, pl_bytes@);
            assert(pseg@ == b64_enc(ascii_bytes(payload(claims@))));
            assert(hseg@ == b64_enc(header_bytes()));
        }
        let mut signing: Vec<char> = Vec::new();
        push_all(&mut signing, &hseg);
        signing.push('.');
        push_all(&mut signing, &pseg);
        proof {
            assert(signing@ =~= signing_input(claims@));
            lemma_signing_ascii(claims@);
        }
        let msg = chars_to_bytes(&signing);
        let sig_str = chars_to_string(&gseg);
        if !verify_hs256(sig_str.as_str(), &self.secret, &msg) {
            proof {
                assert forall|cv: ClaimsV|
                    (scalar_chars(cv.user.name) && token@ == token_spec(self.secret@, cv)
                        && cv.exp > now) implies false by {
                    lemma_wf_payload(cv);
                    assert(pl_chars@ == payload(cv));
                    assert(claims@ == cv);
                    assert(signing@ == signing_input(cv));
                }
                assert(token@ =~= signing_input(claims@) + seq!['.'] + gseg@);
                assert(gseg@ != sig_of(self.secret@, ascii_bytes(signing_input(claims@))));
                assert(scalar_chars(claims@.user.name) && token@ == (signing_input(claims@)
                    + seq!['.'] + gseg@) && gseg@ != sig_of(
                    self.secret@,
                    ascii_bytes(signing_input(claims@)),
                ));
            }
            return Err(AuthError::BadSignature);
        }
        // The signature matched, so the whole token is pinned: it is the
        // canonical token of the parsed claims under this secret.
        proof {
            assert(token@ =~= token_spec(self.secret@, claims@));
            assert forall|cv: ClaimsV|
                (scalar_chars(cv.user.name) && token@ == token_spec(self.secret@, cv) && cv.exp
                    > now) implies claims@ == cv by {
                lemma_wf_payload(cv);
                assert(pl_chars@ == payload(cv));
            }
        }
        if claims.exp <= now {
            proof {
                assert(scalar_chars(claims@.user.name) && token@ == token_spec(
                    self.secret@,
                    claims@,
                ) && claims@.exp <= now);
            }
            return Err(AuthError::Expired);
        }
        Ok(claims)
    }

    /// The expiration instant of a token issued at `now`.
    pub fn expiration(&self, now: u64) -> (t: u64)
        requires
            now + self.duration <= u64::MAX,
        ensures
            t == now + self.duration,
    {
        now + self.duration
    }
}

impl Default for TokenCodec {
    /// The fallback configuration: a fixed well-known secret and fifteen
    /// days of validity. Production deployments override both.
    fn default() -> (c: TokenCodec)
        ensures
            c.secret@ == "my_key".spec_bytes(),
            c.duration == 1296000,
    {
        TokenCodec::new("my_key", 1296000)
    }
}

/// Every character of the signed part of a token is seven-bit.
proof fn lemma_signing_ascii(c: ClaimsV)
    ensures
        all_ascii(signing_input(c)),
{
    lemma_b64_enc_chars(header_bytes());
    lemma_b64_enc_chars(ascii_bytes(payload(c)));
    let h = b64_enc(header_bytes());
    let p = b64_enc(ascii_bytes(payload(c)));
    let s = signing_input(c);
    assert forall|k: int| 0 <= k < s.len() implies '\0' <= (#[trigger] s[k]) && s[k]
        < 128 by {
        if k < h.len() {
            assert(s[k] == h[k]);
            assert(0 <= crate::b64::b64_val(h[k]) < 64);
        } else if k == h.len() {
            assert(s[k] == '.');
        } else {
            assert(s[k] == p[k - h.len() - 1]);
            assert(0 <= crate::b64::b64_val(p[k - h.len() - 1]) < 64);
        }
    }
}

/// What follows for the payload of a well-formed token: its bytes are
/// seven-bit, decoding its segment succeeds, its characters are the bytes,
/// and reading the document yields the claims.
proof fn lemma_wf_payload(cv: ClaimsV)
    requires
        scalar_chars(cv.user.name),
    ensures
        crate::b64::b64_dec(b64_enc(ascii_bytes(payload(cv)))) == Some(ascii_bytes(payload(cv))),
        all_ascii(payload(cv)),
        forall|t: int|
            0 <= t < ascii_bytes(payload(cv)).len() ==> (#[trigger] ascii_bytes(payload(cv))[t])
                < 128,
        bytes_chars(ascii_bytes(payload(cv))) == payload(cv),
        parse_payload(payload(cv)) == Some(cv),
{
    lemma_b64_roundtrip(ascii_bytes(payload(cv)));
    lemma_payload_ascii(cv);
    lemma_payload_roundtrip(cv);
    let pb = ascii_bytes(payload(cv));
    assert forall|t: int| 0 <= t < pb.len() implies (#[trigger] pb[t]) < 128 by {
        assert(pb[t] == payload(cv)[t] as u8);
        assert('\0' <= payload(cv)[t] && payload(cv)[t] < 128);
    }
    assert forall|t: int| 0 <= t < bytes_chars(pb).len() implies bytes_chars(pb)[t] == payload(
        cv,
    )[t] by {
        assert(pb[t] == payload(cv)[t] as u8);
        assert('\0' <= payload(cv)[t] && payload(cv)[t] < 128);
        assert(bytes_chars(pb)[t] == pb[t] as char);
    }
    assert(bytes_chars(pb) =~= payload(cv));
}

/// For a well-formed token, the two framing dots pin all three segments.
proof fn lemma_wf_segments(secret: Seq<u8>, cv: ClaimsV, chars: Seq<char>, gi: int, gj: int)
    requires
        scalar_chars(cv.user.name),
        chars == token_spec(secret, cv),
        0 <= gi < gj < chars.len(),
        chars[gi] == '.',
        chars[gj] == '.',
        forall|k: int| 0 <= k < gi ==> chars[k] != '.',
        forall|k: int| gi < k < gj ==> chars[k] != '.',
    ensures
        chars.subrange(0, gi) == b64_enc(header_bytes()),
        chars.subrange(gi + 1, gj) == b64_enc(ascii_bytes(payload(cv))),
        chars.subrange(gj + 1, chars.len() as int) == sig_of(
            secret,
            ascii_bytes(signing_input(cv)),
        ),
{
    lemma_token_shape(secret, cv);
    let h = b64_enc(header_bytes());
    let p = b64_enc(ascii_bytes(payload(cv)));
    let g = sig_of(secret, ascii_bytes(signing_input(cv)));
    let hl = h.len() as int;
    let pl = p.len() as int;
    assert(chars[hl] == '.');
    assert(gi == hl) by {
        if gi < hl {
            assert(chars[gi] == h[gi]);
        }
        if gi > hl {
            assert(chars[hl] != '.');
        }
    }
    assert(gj == hl + 1 + pl) by {
        if gj < hl + 1 + pl {
            assert(chars[gj] == p[gj - hl - 1]);
        }
        if gj > hl + 1 + pl {
            assert(chars[hl + 1 + pl] != '.');
        }
    }
    assert(chars.subrange(0, gi) =~= h) by {
        assert forall|t: int| 0 <= t < hl implies chars.subrange(0, gi)[t] == h[t] by {
            assert(chars.subrange(0, gi)[t] == chars[t]);
        }
    }
    assert(chars.subrange(gi + 1, gj) =~= p) by {
        assert forall|t: int| 0 <= t < pl implies chars.subrange(gi + 1, gj)[t] == p[t] by {
            assert(chars.subrange(gi + 1, gj)[t] == chars[gi + 1 + t]);
        }
    }
    assert(chars.subrange(gj + 1, chars.len() as int) =~= g) by {
        assert forall|t: int| 0 <= t < g.len() implies chars.subrange(
            gj + 1,
            chars.len() as int,
        )[t] == g[t] by {
            assert(chars.subrange(gj + 1, chars.len() as int)[t] == chars[gj + 1 + t]);
        }
    }
}

/// Under one secret, distinct claims have distinct tokens: the claims can
/// be read back out of the token, so the token pins them.
#[verifier::rlimit(60)]
pub proof fn lemma_token_spec_injective(secret: Seq<u8>, cv1: ClaimsV, cv2: ClaimsV)
    requires
        scalar_chars(cv1.user.name),
        scalar_chars(cv2.user.name),
        token_spec(secret, cv1) == token_spec(secret, cv2),
    ensures
        cv1 == cv2,
{
    let t = token_spec(secret, cv1);
    lemma_token_shape(secret, cv1);
    lemma_token_shape(secret, cv2);
    let h = b64_enc(header_bytes());
    let p1 = b64_enc(ascii_bytes(payload(cv1)));
    let p2 = b64_enc(ascii_bytes(payload(cv2)));
    let hl = h.len() as int;
    assert(p1.len() == p2.len()) by {
        if p1.len() < p2.len() {
            assert(t[hl + 1 + p1.len()] == '.');
            assert(t[hl + 1 + p1.len()] == p2[p1.len() as int]);
            assert(p2[p1.len() as int] != '.');
        }
        if p2.len() < p1.len() {
            assert(t[hl + 1 + p2.len()] == '.');
            assert(t[hl + 1 + p2.len()] == p1[p2.len() as int]);
            assert(p1[p2.len() as int] != '.');
        }
    }
    assert(p1 =~= p2) by {
        assert forall|k: int| 0 <= k < p1.len() implies p1[k] == p2[k] by {
            assert(t[hl + 1 + k] == p1[k]);
            assert(t[hl + 1 + k] == p2[k]);
        }
    }
    lemma_b64_roundtrip(ascii_bytes(payload(cv1)));
    lemma_b64_roundtrip(ascii_bytes(payload(cv2)));
    assert(ascii_bytes(payload(cv1)) == ascii_bytes(payload(cv2)));
    lemma_wf_payload(cv1);
    assert(payload(cv1) =~= bytes_chars(ascii_bytes(payload(cv1))));
    lemma_payload_ascii(cv2);
    assert(payload(cv2) =~= bytes_chars(ascii_bytes(payload(cv2)))) by {
        let pb = ascii_bytes(payload(cv2));
        assert forall|k: int| 0 <= k < bytes_chars(pb).len() implies bytes_chars(pb)[k]
            == payload(cv2)[k] by {
            assert(pb[k] == payload(cv2)[k] as u8);
            assert('\0' <= payload(cv2)[k] && payload(cv2)[k] < 128);
            assert(bytes_chars(pb)[k] == pb[k] as char);
        }
    }
    assert(payload(cv1) == payload(cv2));
    lemma_payload_roundtrip(cv1);
    lemma_payload_roundtrip(cv2);
    assert(Some(cv1) == Some(cv2));
}

/// Reading back an issued token yields exactly the claims it was issued
/// for, as long as they have not expired.
pub proof fn lemma_token_roundtrip(secret: Seq<u8>, cv: ClaimsV, now: u64)
    requires
        scalar_chars(cv.user.name),
        cv.exp > now,
    ensures
        decode_spec(secret, token_spec(secret, cv), now) == Some(cv),
{
    let t = token_spec(secret, cv);
    assert(valid_token(secret, t, now, cv));
    let w = choose|c2: ClaimsV| valid_token(secret, t, now, c2);
    assert(valid_token(secret, t, now, w));
    assert(scalar_chars(w.user.name));
    lemma_token_spec_injective(secret, cv, w);
}

/// A token whose embedded expiration has passed is rejected, whatever its
/// signature: nothing decodes from it at or after that instant.
pub proof fn lemma_expired_rejected(secret: Seq<u8>, cv: ClaimsV, now: u64)
    requires
        scalar_chars(cv.user.name),
        cv.exp <= now,
    ensures
        decode_spec(secret, token_spec(secret, cv), now) is None,
{
    let t = token_spec(secret, cv);
    if exists|c2: ClaimsV| valid_token(secret, t, now, c2) {
        let w = choose|c2: ClaimsV| valid_token(secret, t, now, c2);
        assert(valid_token(secret, t, now, w));
        assert(scalar_chars(w.user.name));
        lemma_token_spec_injective(secret, cv, w);
    }
}

/// A token issued under one secret never takes the shape of a token under
/// another secret, provided the two secrets' signatures over this token's
/// signed part differ (HMAC-SHA256 is relied upon to keep them distinct).
/// Together with `decode`'s contract this means decoding it under the other
/// secret fails.
pub proof fn lemma_other_secret_rejected(s1: Seq<u8>, s2: Seq<u8>, cv: ClaimsV)
    requires
        scalar_chars(cv.user.name),
        sig_of(s2, ascii_bytes(signing_input(cv))) != sig_of(s1, ascii_bytes(signing_input(cv))),
    ensures
        forall|c2: ClaimsV| token_spec(s1, cv) != #[trigger] token_spec(s2, c2),
{
    assert forall|c2: ClaimsV| token_spec(s1, cv) != #[trigger] token_spec(s2, c2) by {
        if token_spec(s1, cv) == token_spec(s2, c2) {
            let t = token_spec(s1, cv);
            lemma_token_shape(s1, cv);
            lemma_token_shape(s2, c2);
            let h = b64_enc(header_bytes());
            let p1 = b64_enc(ascii_bytes(payload(cv)));
            let p2 = b64_enc(ascii_bytes(payload(c2)));
            let g1 = sig_of(s1, ascii_bytes(signing_input(cv)));
            let g2 = sig_of(s2, ascii_bytes(signing_input(c2)));
            let hl = h.len() as int;
            assert(p1.len() == p2.len()) by {
                if p1.len() < p2.len() {
                    assert(t[hl + 1 + p1.len()] == '.');
                    assert(t[hl + 1 + p1.len()] == p2[p1.len() as int]);
                    assert(p2[p1.len() as int] != '.');
                }
                if p2.len() < p1.len() {
                    assert(t[hl + 1 + p2.len()] == '.');
                    assert(t[hl + 1 + p2.len()] == p1[p2.len() as int]);
                    assert(p1[p2.len() as int] != '.');
                }
            }
            assert(p1 =~= p2) by {
                assert forall|k: int| 0 <= k < p1.len() implies p1[k] == p2[k] by {
                    assert(t[hl + 1 + k] == p1[k]);
                    assert(t[hl + 1 + k] == p2[k]);
                }
            }
            lemma_b64_roundtrip(ascii_bytes(payload(cv)));
            lemma_b64_roundtrip(ascii_bytes(payload(c2)));
            assert(ascii_bytes(payload(cv)) == ascii_bytes(payload(c2)));
            assert(signing_input(cv) == signing_input(c2));
            assert(g1.len() == g2.len());
            assert(g1 =~= g2) by {
                assert forall|k: int| 0 <= k < g1.len() implies g1[k] == g2[k] by {
                    assert(t[hl + 2 + p1.len() + k] == g1[k]);
                    assert(t[hl + 2 + p2.len() + k] == g2[k]);
                }
            }
            assert(sig_of(s1, ascii_bytes(signing_input(cv))) == sig_of(
                s2,
                ascii_bytes(signing_input(cv)),
            ));
        }
    }
}

} // verus!
