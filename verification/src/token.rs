use crate::b64;
use crate::bytestr::{ascii_to_string, bytes_eq, is_token_bytes, is_token_text, push_bytes,
    str_bytes, token_text};
use crate::claims::{claims_wf, Claims, ClaimsModel};
use crate::json;
use vstd::prelude::*;
use vstd::string::StringSliceAdditionalSpecFns;

verus! {

// The token codec: the only component that mints or opens bearer tokens.
// A token is three base64url segments joined by dots,
//     base64url(header).base64url(body).base64url(signature)
// with a fixed header naming HMAC-SHA256, the canonical claims body, and a
// detached signature over everything before the second dot, computed with a
// symmetric secret shared between issuer and verifier. `open_at` verifies the
// signature before it reads any claim, then checks the expiry against the
// caller's clock.

/// The base64url form of the fixed header `{"typ":"JWT","alg":"HS256"}`.
pub open spec fn header_b64() -> Seq<u8> {
    seq![
        101u8, 121u8, 74u8, 48u8, 101u8, 88u8, 65u8, 105u8, 79u8, 105u8, 74u8, 75u8, 86u8, 49u8,
        81u8, 105u8, 76u8, 67u8, 74u8, 104u8, 98u8, 71u8, 99u8, 105u8, 79u8, 105u8, 74u8, 73u8,
        85u8, 122u8, 73u8, 49u8, 78u8, 105u8, 74u8, 57u8,
    ]
}

/// What `jsonwebtoken::crypto::sign` returns for HS256: the unpadded
/// base64url encoding of the HMAC-SHA256 digest of the message under the
/// secret, a function of message and secret alone.
pub uninterp spec fn hs256_sig_of(msg: Seq<u8>, secret: Seq<u8>) -> Seq<u8>;

/// Relies on `jsonwebtoken::crypto::sign` with `Algorithm::HS256` and a key
/// from `EncodingKey::from_secret`: it returns the unpadded base64url
/// encoding of the 32-byte HMAC-SHA256 digest — deterministic in message and
/// secret, 43 digits of the base64url alphabet, and infallible for the HMAC
/// algorithms.
#[verifier::external_body]
fn hs256_sign(message: &Vec<u8>, secret: &Vec<u8>) -> (r: Vec<u8>)
    ensures
        r@ == hs256_sig_of(message@, secret@),
        r@.len() == 43,
        forall|i: int| 0 <= i < r@.len() ==> b64::is_b64_digit(#[trigger] r@[i]),
{
    let key = jsonwebtoken::EncodingKey::from_secret(secret);
    jsonwebtoken::crypto::sign(message, &key, jsonwebtoken::Algorithm::HS256).unwrap().into_bytes()
}

/// Relies on `jsonwebtoken::crypto::verify` with `Algorithm::HS256` and a
/// key from `DecodingKey::from_secret`: for HMAC it re-signs the message and
/// compares the given signature constant-time against the canonical
/// base64url digest string, so it returns true exactly when the signature
/// equals that string; a signature that is not UTF-8 differs from that ASCII
/// string, and for the HMAC algorithms the call itself cannot fail.
#[verifier::external_body]
fn hs256_verify(sig: &[u8], message: &Vec<u8>, secret: &Vec<u8>) -> (r: bool)
    ensures
        r == (sig@ == hs256_sig_of(message@, secret@)),
{
    let key = jsonwebtoken::DecodingKey::from_secret(secret);
    match std::str::from_utf8(sig) {
        Ok(s) => jsonwebtoken::crypto::verify(s, message, &key, jsonwebtoken::Algorithm::HS256)
            .unwrap_or(false),
        Err(_) => false,
    }
}

/// The input the signature covers: header, dot, body.
pub open spec fn signing_input(c: ClaimsModel) -> Seq<u8> {
    header_b64() + seq![46u8] + b64::b64_encode(json::json_body(c))
}

/// The whole token for a claims value under a secret.
pub open spec fn token_bytes(c: ClaimsModel, secret: Seq<u8>) -> Seq<u8> {
    signing_input(c) + seq![46u8] + hs256_sig_of(signing_input(c), secret)
}

/// The one statement `open_at` decides: the token is exactly the canonical
/// token of a well-formed claims value under the secret.
pub open spec fn valid_token_for(t: Seq<u8>, secret: Seq<u8>, c: ClaimsModel) -> bool {
    claims_wf(c) && t == token_bytes(c, secret)
}

/// Why a token was rejected. Callers report all three alike; the distinction
/// is internal.
#[derive(Debug, Clone, Copy, PartialEq, Eq, Structural)]
pub enum TokenError {
    Malformed,
    BadSignature,
    Expired,
}

/// The segment layout of a canonical token.
pub proof fn lemma_token_segments(c: ClaimsModel, secret: Seq<u8>)
    ensures
        ({
            let t = token_bytes(c, secret);
            let body = b64::b64_encode(json::json_body(c));
            let m = 37 + body.len() as int;
            &&& t.len() == m + 1 + hs256_sig_of(signing_input(c), secret).len()
            &&& t.subrange(0, 36) == header_b64()
            &&& t[36] == 46
            &&& t.subrange(37, m) == body
            &&& t[m] == 46
            &&& t.subrange(0, m) == signing_input(c)
            &&& t.subrange(m + 1, t.len() as int) == hs256_sig_of(signing_input(c), secret)
        }),
{
    let t = token_bytes(c, secret);
    let body = b64::b64_encode(json::json_body(c));
    let m = 37 + body.len() as int;
    assert(t.subrange(0, 36) =~= header_b64());
    assert(t.subrange(37, m) =~= body);
    assert(t.subrange(0, m) =~= signing_input(c));
    assert(t.subrange(m + 1, t.len() as int) =~= hs256_sig_of(signing_input(c), secret));
}

/// In a canonical token, the first dot at or after offset 37 ends the body.
pub proof fn lemma_pin_dot(t: Seq<u8>, c: ClaimsModel, secret: Seq<u8>, d: int)
    requires
        t == token_bytes(c, secret),
        37 <= d < t.len(),
        t[d] == 46,
        forall|j: int| 37 <= j < d ==> #[trigger] t[j] != 46,
    ensures
        d == 37 + b64::b64_encode(json::json_body(c)).len(),
{
    lemma_token_segments(c, secret);
    b64::lemma_encode_digits(json::json_body(c));
    let body = b64::b64_encode(json::json_body(c));
    let m = 37 + body.len() as int;
    if d < m {
        assert(t[d] == t.subrange(37, m)[d - 37]);
        assert(b64::is_b64_digit(body[d - 37]));
        assert(false);
    }
    if m < d {
        assert(false);
    }
}

/// A token is the canonical token of at most one claims value: the codec
/// never returns claims other than the ones the token was minted from.
pub proof fn lemma_valid_token_unique(t: Seq<u8>, secret: Seq<u8>, c1: ClaimsModel, c2: ClaimsModel)
    requires
        valid_token_for(t, secret, c1),
        valid_token_for(t, secret, c2),
    ensures
        c1 == c2,
{
    lemma_token_segments(c1, secret);
    lemma_token_segments(c2, secret);
    b64::lemma_encode_digits(json::json_body(c1));
    b64::lemma_encode_digits(json::json_body(c2));
    let b1 = b64::b64_encode(json::json_body(c1));
    let b2 = b64::b64_encode(json::json_body(c2));
    let m1 = 37 + b1.len() as int;
    let m2 = 37 + b2.len() as int;
    if m1 < m2 {
        assert(t[m1] == t.subrange(37, m2)[m1 - 37]);
        assert(b64::is_b64_digit(b2[m1 - 37]));
        assert(false);
    }
    if m2 < m1 {
        assert(t[m2] == t.subrange(37, m1)[m2 - 37]);
        assert(b64::is_b64_digit(b1[m2 - 37]));
        assert(false);
    }
    assert(b1 =~= b2) by {
        assert(t.subrange(37, m1) == b1 && t.subrange(37, m2) == b2);
    }
    b64::lemma_decode_encode(json::json_body(c1));
    b64::lemma_decode_encode(json::json_body(c2));
    assert(json::json_body(c1) == json::json_body(c2));
    json::lemma_json_body_injective(c1, c2);
    assert(c1 =~= c2);
}

/// The round trip: the token minted for a well-formed claims value is valid
/// for those claims and for no others, so by `open_bytes_at`'s contract,
/// opening it against the same secret before its expiry returns the claims
/// unchanged.
pub proof fn lemma_issue_open_roundtrip(c: ClaimsModel, secret: Seq<u8>, c2: ClaimsModel)
    requires
        claims_wf(c),
        valid_token_for(token_bytes(c, secret), secret, c2),
    ensures
        c2 == c,
        valid_token_for(token_bytes(c, secret), secret, c),
{
    lemma_valid_token_unique(token_bytes(c, secret), secret, c, c2);
}

/// An expired token opens for no one: any claims a token is valid for share
/// its expiry, so where that has passed, the success case of the codec —
/// valid and unexpired — is impossible however valid the signature is.
pub proof fn lemma_expired_token_rejected(t: Seq<u8>, secret: Seq<u8>, c: ClaimsModel, now: u64)
    requires
        valid_token_for(t, secret, c),
        now >= c.exp,
    ensures
        forall|c2: ClaimsModel| valid_token_for(t, secret, c2) ==> now >= c2.exp,
{
    assert forall|c2: ClaimsModel| valid_token_for(t, secret, c2) implies now >= c2.exp by {
        lemma_valid_token_unique(t, secret, c, c2);
    }
}

/// Altering any single byte of the signature segment of a canonical token
/// leaves a token that is canonical for no claims value at all.
pub proof fn lemma_altered_signature_rejected(
    c: ClaimsModel,
    secret: Seq<u8>,
    t2: Seq<u8>,
    i: int,
)
    requires
        claims_wf(c),
        ({
            let t = token_bytes(c, secret);
            &&& t2.len() == t.len()
            &&& 37 + b64::b64_encode(json::json_body(c)).len() < i < t.len()
            &&& t2[i] != t[i]
            &&& forall|j: int| 0 <= j < t.len() && j != i ==> t2[j] == #[trigger] t[j]
        }),
    ensures
        forall|c2: ClaimsModel| !valid_token_for(t2, secret, c2),
{
    let t = token_bytes(c, secret);
    let m = 37 + b64::b64_encode(json::json_body(c)).len() as int;
    lemma_token_segments(c, secret);
    b64::lemma_encode_digits(json::json_body(c));
    assert forall|c2: ClaimsModel| !valid_token_for(t2, secret, c2) by {
        if valid_token_for(t2, secret, c2) {
            lemma_token_segments(c2, secret);
            b64::lemma_encode_digits(json::json_body(c2));
            let m2 = 37 + b64::b64_encode(json::json_body(c2)).len() as int;
            // the difference lies after m, so the two tokens agree up to m,
            // and the first dot at or after 37 is at m in both
            if m2 < m {
                assert(t2[m2] == t.subrange(37, m)[m2 - 37]);
                assert(false);
            }
            if m < m2 {
                assert(t[m] == 46);
                assert(t2[m] == 46);
                assert(t2[m] == t2.subrange(37, m2)[m - 37]);
                assert(b64::is_b64_digit(b64::b64_encode(json::json_body(c2))[m - 37]));
                assert(false);
            }
            assert(t2.subrange(0, m) =~= t.subrange(0, m));
            assert(signing_input(c2) == signing_input(c));
            assert(t2.subrange(m + 1, t2.len() as int) == hs256_sig_of(signing_input(c), secret));
            assert(t2[i] == t2.subrange(m + 1, t2.len() as int)[i - m - 1]);
            assert(t[i] == t.subrange(m + 1, t.len() as int)[i - m - 1]);
            assert(false);
        }
    }
}

/// Mints the token of a well-formed claims value; rejects claim strings that
/// cannot stand in a token body.
pub fn issue(claims: &Claims, secret: &Vec<u8>) -> (r: Option<String>)
    ensures
        match r {
            Some(t) => {
                &&& claims_wf(claims@)
                &&& str_bytes(t@) == token_bytes(claims@, secret@)
            },
            None => !claims_wf(claims@),
        },
{
    if !is_token_text(claims.sub.as_str()) || !is_token_text(claims.email.as_str()) {
        return None;
    }
    let body = json::format_claims(claims);
    let body64 = b64::encode(body.as_slice());
    let header: Vec<u8> = vec![
        101u8, 121u8, 74u8, 48u8, 101u8, 88u8, 65u8, 105u8, 79u8, 105u8, 74u8, 75u8, 86u8, 49u8,
        81u8, 105u8, 76u8, 67u8, 74u8, 104u8, 98u8, 71u8, 99u8, 105u8, 79u8, 105u8, 74u8, 73u8,
        85u8, 122u8, 73u8, 49u8, 78u8, 105u8, 74u8, 57u8,
    ];
    proof {
        assert(header@ =~= header_b64());
    }
    let mut msg: Vec<u8> = Vec::new();
    push_bytes(&mut msg, header.as_slice());
    msg.push(46u8);
    push_bytes(&mut msg, body64.as_slice());
    proof {
        assert(msg@ =~= signing_input(claims@));
    }
    let sig = hs256_sign(&msg, secret);
    let mut tok = msg;
    tok.push(46u8);
    push_bytes(&mut tok, sig.as_slice());
    proof {
        assert(tok@ =~= token_bytes(claims@, secret@));
        b64::lemma_encode_digits(json::json_body(claims@));
        assert forall|i: int| 0 <= i < tok@.len() implies tok@[i] < 0x80 by {
            let m = 37 + b64::b64_encode(json::json_body(claims@)).len() as int;
            lemma_token_segments(claims@, secret@);
            if i < 36 {
                assert(tok@[i] == tok@.subrange(0, 36)[i]);
            } else if i == 36 {
            } else if i < m {
                assert(tok@[i] == tok@.subrange(37, m)[i - 37]);
                assert(b64::is_b64_digit(b64::b64_encode(json::json_body(claims@))[i - 37]));
            } else if i == m {
            } else {
                assert(tok@[i] == tok@.subrange(m + 1, tok@.len() as int)[i - m - 1]);
                assert(tok@.subrange(m + 1, tok@.len() as int) == sig@);
                assert(b64::is_b64_digit(sig@[i - m - 1]));
            }
        }
    }
    let t = ascii_to_string(tok);
    proof {
        crate::bytestr::lemma_ascii_str_bytes(t@, token_bytes(claims@, secret@));
    }
    Some(t)
}

/// The first dot at or after a position.
fn find_dot(s: &[u8], from: usize) -> (r: Option<usize>)
    requires
        from <= s@.len(),
    ensures
        match r {
            Some(q) => from <= q < s@.len() && s@[q as int] == 46 && forall|j: int|
                from <= j < q ==> #[trigger] s@[j] != 46,
            None => forall|j: int| from <= j < s@.len() ==> #[trigger] s@[j] != 46,
        },
{
    let n = s.len();
    let mut i: usize = from;
    while i < n
        invariant
            n == s@.len(),
            from <= i <= n,
            forall|j: int| from <= j < i ==> #[trigger] s@[j] != 46,
        decreases n - i,
    {
        if s[i] == 46 {
            return Some(i);
        }
        i = i + 1;
    }
    None
}

/// Opens a token against the secret at a given clock reading: verifies the
/// signature before trusting any field, then rejects structural
/// malformation, and finally rejects a passed expiry. `Ok` exactly on the
/// canonical token of a well-formed claims value that has not expired.
#[verifier::rlimit(100)]
pub fn open_bytes_at(bytes: &[u8], secret: &Vec<u8>, now: u64) -> (r: Result<Claims, TokenError>)
    ensures
        match r {
            Ok(c) => valid_token_for(bytes@, secret@, c@) && now < c@.exp,
            Err(e) => {
                if e == TokenError::Expired {
                    exists|c: ClaimsModel| valid_token_for(bytes@, secret@, c) && now >= c.exp
                } else {
                    forall|c: ClaimsModel| !valid_token_for(bytes@, secret@, c)
                }
            },
        },
{
    let n = bytes.len();
    let ghost t = bytes@;
    if n < 38 {
        proof {
            assert forall|c: ClaimsModel| !valid_token_for(t, secret@, c) by {
                if valid_token_for(t, secret@, c) {
                    lemma_token_segments(c, secret@);
                }
            }
        }
        return Err(TokenError::Malformed);
    }
    let header: Vec<u8> = vec![
        101u8, 121u8, 74u8, 48u8, 101u8, 88u8, 65u8, 105u8, 79u8, 105u8, 74u8, 75u8, 86u8, 49u8,
        81u8, 105u8, 76u8, 67u8, 74u8, 104u8, 98u8, 71u8, 99u8, 105u8, 79u8, 105u8, 74u8, 73u8,
        85u8, 122u8, 73u8, 49u8, 78u8, 105u8, 74u8, 57u8,
    ];
    proof {
        assert(header@ =~= header_b64());
    }
    if !bytes_eq(&bytes[0..36], header.as_slice()) || bytes[36] != 46 {
        proof {
            assert forall|c: ClaimsModel| !valid_token_for(t, secret@, c) by {
                if valid_token_for(t, secret@, c) {
                    lemma_token_segments(c, secret@);
                }
            }
        }
        return Err(TokenError::Malformed);
    }
    let d2 = match find_dot(bytes, 37) {
        Some(d) => d,
        None => {
            proof {
                assert forall|c: ClaimsModel| !valid_token_for(t, secret@, c) by {
                    if valid_token_for(t, secret@, c) {
                        lemma_token_segments(c, secret@);
                        let m = 37 + b64::b64_encode(json::json_body(c)).len() as int;
                        assert(t[m] == 46);
                    }
                }
            }
            return Err(TokenError::Malformed);
        },
    };
    let message = vstd::slice::slice_to_vec(&bytes[0..d2]);
    let sigseg = &bytes[d2 + 1..n];
    if !hs256_verify(sigseg, &message, secret) {
        proof {
            assert forall|c: ClaimsModel| !valid_token_for(t, secret@, c) by {
                if valid_token_for(t, secret@, c) {
                    lemma_pin_dot(t, c, secret@, d2 as int);
                    lemma_token_segments(c, secret@);
                    assert(message@ =~= signing_input(c));
                    assert(sigseg@ =~= hs256_sig_of(signing_input(c), secret@));
                }
            }
        }
        return Err(TokenError::BadSignature);
    }
    let body64 = &bytes[37..d2];
    let body = match b64::decode(body64) {
        Some(b) => b,
        None => {
            proof {
                assert forall|c: ClaimsModel| !valid_token_for(t, secret@, c) by {
                    if valid_token_for(t, secret@, c) {
                        lemma_pin_dot(t, c, secret@, d2 as int);
                        lemma_token_segments(c, secret@);
                        assert(body64@ =~= b64::b64_encode(json::json_body(c)));
                        b64::lemma_decode_encode(json::json_body(c));
                    }
                }
            }
            return Err(TokenError::Malformed);
        },
    };
    let parts = match json::parse_body(body.as_slice()) {
        Some(p) => p,
        None => {
            proof {
                assert forall|c: ClaimsModel| !valid_token_for(t, secret@, c) by {
                    if valid_token_for(t, secret@, c) {
                        lemma_pin_dot(t, c, secret@, d2 as int);
                        lemma_token_segments(c, secret@);
                        assert(body64@ =~= b64::b64_encode(json::json_body(c)));
                        b64::lemma_decode_encode(json::json_body(c));
                        assert(body@ == json::json_body(c));
                    }
                }
            }
            return Err(TokenError::Malformed);
        },
    };
    let (subv, emailv, role, exp) = parts;
    if !is_token_bytes(subv.as_slice()) || !is_token_bytes(emailv.as_slice()) {
        proof {
            let m0 = ClaimsModel { sub: subv@, email: emailv@, role, exp };
            assert forall|c: ClaimsModel| !valid_token_for(t, secret@, c) by {
                if valid_token_for(t, secret@, c) {
                    lemma_pin_dot(t, c, secret@, d2 as int);
                    lemma_token_segments(c, secret@);
                    assert(body64@ =~= b64::b64_encode(json::json_body(c)));
                    b64::lemma_decode_encode(json::json_body(c));
                    assert(body@ == json::json_body(c));
                    assert(json::json_body(m0) == json::json_body(c));
                    json::lemma_json_body_injective(m0, c);
                }
            }
        }
        return Err(TokenError::Malformed);
    }
    let ghost m0 = ClaimsModel { sub: subv@, email: emailv@, role, exp };
    proof {
        // the token is canonical for exactly the parsed claims
        assert(t.subrange(0, d2 as int) == message@);
        assert(t.subrange(37, d2 as int) == body64@);
        assert(t.subrange(0, 36) == header_b64()) by {
            assert(t.subrange(0, 36) =~= bytes@.subrange(0, 36));
        }
        b64::lemma_encode_decode(body64@);
        assert(body64@ == b64::b64_encode(json::json_body(m0)));
        assert(message@ =~= signing_input(m0));
        assert(t =~= token_bytes(m0, secret@)) by {
            assert(sigseg@ == hs256_sig_of(message@, secret@));
            assert(t =~= message@ + seq![46u8] + sigseg@);
        }
        assert(claims_wf(m0));
        assert(valid_token_for(t, secret@, m0));
    }
    if now >= exp {
        proof {
            assert(valid_token_for(t, secret@, m0) && now >= m0.exp);
        }
        return Err(TokenError::Expired);
    }
    let sub = ascii_to_string(subv);
    let email = ascii_to_string(emailv);
    let c = Claims { sub, email, role, exp };
    proof {
        crate::bytestr::lemma_ascii_str_bytes(c.sub@, m0.sub);
        crate::bytestr::lemma_ascii_str_bytes(c.email@, m0.email);
        assert(c@ =~= m0);
    }
    Ok(c)
}

/// Opens a token given as a string; see `open_bytes_at`.
pub fn open_at(token: &str, secret: &Vec<u8>, now: u64) -> (r: Result<Claims, TokenError>)
    ensures
        match r {
            Ok(c) => valid_token_for(token.spec_bytes(), secret@, c@) && now < c@.exp,
            Err(e) => {
                if e == TokenError::Expired {
                    exists|c: ClaimsModel|
                        valid_token_for(token.spec_bytes(), secret@, c) && now >= c.exp
                } else {
                    forall|c: ClaimsModel| !valid_token_for(token.spec_bytes(), secret@, c)
                }
            },
        },
{
    open_bytes_at(token.as_bytes(), secret, now)
}

} // verus!
