use vstd::prelude::*;
use vstd::string::StringSliceAdditionalSpecFns;

verus! {

/// A byte that may stand inside a JSON string without escaping and inside a
/// token claim: printable ASCII, no quote, no backslash.
pub open spec fn token_byte(b: u8) -> bool {
    0x20 <= b < 0x7f && b != 0x22 && b != 0x5c
}

/// Text fit for a token claim: every byte printable ASCII, no quote, no
/// backslash.
pub open spec fn token_text(s: Seq<u8>) -> bool {
    forall|i: int| 0 <= i < s.len() ==> token_byte(s[i])
}

/// The UTF-8 bytes of a string value, as the specification-level view of its
/// characters.
pub open spec fn str_bytes(s: Seq<char>) -> Seq<u8> {
    vstd::utf8::encode_utf8(s)
}

/// `token_text` carries across equal sequences even where the two are
/// written as different terms.
pub proof fn lemma_token_text_congr(a: Seq<u8>, b: Seq<u8>)
    requires
        a == b,
        token_text(a),
    ensures
        token_text(b),
{
    assert forall|i: int| 0 <= i < b.len() implies token_byte(b[i]) by {
        assert(b[i] == a[i]);
    }
}

/// Checks byte-for-byte equality of two slices.
pub fn bytes_eq(a: &[u8], b: &[u8]) -> (r: bool)
    ensures
        r == (a@ == b@),
{
    if a.len() != b.len() {
        assert(a@.len() != b@.len());
        return false;
    }
    let n = a.len();
    let mut i: usize = 0;
    while i < n
        invariant
            n == a@.len() == b@.len(),
            0 <= i <= n,
            forall|j: int| 0 <= j < i ==> a@[j] == b@[j],
        decreases n - i,
    {
        if a[i] != b[i] {
            return false;
        }
        i = i + 1;
    }
    proof {
        assert(a@ =~= b@);
    }
    true
}

/// Checks that every byte of the slice may stand in a token claim.
pub fn is_token_bytes(s: &[u8]) -> (r: bool)
    ensures
        r == token_text(s@),
{
    let n = s.len();
    let mut i: usize = 0;
    while i < n
        invariant
            n == s@.len(),
            0 <= i <= n,
            forall|j: int| 0 <= j < i ==> token_byte(s@[j]),
        decreases n - i,
    {
        let b = s[i];
        if !(0x20 <= b && b < 0x7f && b != 0x22 && b != 0x5c) {
            return false;
        }
        i = i + 1;
    }
    true
}

/// Checks that every byte of the string may stand in a token claim.
pub fn is_token_text(s: &str) -> (r: bool)
    ensures
        r == token_text(s.spec_bytes()),
{
    is_token_bytes(s.as_bytes())
}

/// Appends all bytes of a slice to a vector.
pub fn push_bytes(out: &mut Vec<u8>, s: &[u8])
    ensures
        final(out)@ == old(out)@ + s@,
{
    let n = s.len();
    let mut i: usize = 0;
    while i < n
        invariant
            n == s@.len(),
            0 <= i <= n,
            out@ == old(out)@ + s@.take(i as int),
        decreases n - i,
    {
        out.push(s[i]);
        proof {
            assert(old(out)@ + s@.take(i as int + 1) =~= (old(out)@ + s@.take(i as int)).push(
                s@[i as int],
            ));
        }
        i = i + 1;
    }
    proof {
        assert(s@.take(n as int) =~= s@);
    }
}

/// Turns ASCII bytes into the string whose characters are exactly those bytes.
///
/// Relies on `String::from_utf8`: bytes below 0x80 are valid UTF-8 and decode
/// to one character per byte, with the same scalar value.
#[verifier::external_body]
pub fn ascii_to_string(v: Vec<u8>) -> (r: String)
    requires
        forall|i: int| 0 <= i < v@.len() ==> v@[i] < 0x80,
    ensures
        r@.len() == v@.len(),
        forall|i: int| 0 <= i < v@.len() ==> r@[i] as u32 == v@[i] as u32,
{
    String::from_utf8(v).unwrap()
}

/// The character-per-byte correspondence of `ascii_to_string` pins the UTF-8
/// view of the result: ASCII characters encode to themselves.
pub proof fn lemma_ascii_str_bytes(s: Seq<char>, v: Seq<u8>)
    requires
        s.len() == v.len(),
        forall|i: int| 0 <= i < v.len() ==> v[i] < 0x80,
        forall|i: int| 0 <= i < v.len() ==> #[trigger] (s[i] as u32) == v[i] as u32,
    ensures
        str_bytes(s) == v,
    decreases s.len(),
{
    if s.len() == 0 {
        assert(str_bytes(s) =~= v);
    } else {
        let u = s[0] as u32;
        let b = v[0];
        assert(u == b as u32);
        assert(vstd::utf8::has_width_1_encoding(u));
        assert((u & 0x7f) as u8 == b) by (bit_vector)
            requires
                u == b as u32 && b < 0x80,
        ;
        assert(vstd::utf8::encode_scalar(u) =~= seq![v[0]]);
        lemma_ascii_str_bytes(s.drop_first(), v.drop_first());
        assert(str_bytes(s) =~= v);
    }
}

} // verus!
