use vstd::prelude::*;

verus! {

// Base64url without padding, as bearer tokens use it: three bytes become four
// digits of the alphabet A-Z a-z 0-9 - _; a final group of one or two bytes
// becomes two or three digits whose unused low bits are zero. Decoding is
// strict: it accepts exactly the encodings this module produces.

/// True of the ASCII codes of the base64url alphabet.
pub open spec fn is_b64_digit(b: u8) -> bool {
    (65 <= b <= 90) || (97 <= b <= 122) || (48 <= b <= 57) || b == 45 || b == 95
}

/// The ASCII code of the digit for a six-bit value.
pub open spec fn b64_digit(v: u8) -> u8 {
    if v < 26 {
        (v + 65) as u8
    } else if v < 52 {
        (v + 71) as u8
    } else if v < 62 {
        (v - 4) as u8
    } else if v == 62 {
        45u8
    } else {
        95u8
    }
}

/// The six-bit value of a digit of the alphabet.
pub open spec fn b64_val(b: u8) -> u8 {
    if 65 <= b <= 90 {
        (b - 65) as u8
    } else if 97 <= b <= 122 {
        (b - 71) as u8
    } else if 48 <= b <= 57 {
        (b + 4) as u8
    } else if b == 45 {
        62u8
    } else {
        63u8
    }
}

pub proof fn lemma_digit_val(v: u8)
    requires
        v < 64,
    ensures
        is_b64_digit(b64_digit(v)),
        b64_val(b64_digit(v)) == v,
{
}

pub proof fn lemma_val_digit(b: u8)
    requires
        is_b64_digit(b),
    ensures
        b64_val(b) < 64,
        b64_digit(b64_val(b)) == b,
{
}

/// The four digits of a full group of three bytes.
pub open spec fn enc3(a: u8, b: u8, c: u8) -> Seq<u8> {
    seq![
        b64_digit(a >> 2),
        b64_digit(((a & 3) << 4) | (b >> 4)),
        b64_digit(((b & 15) << 2) | (c >> 6)),
        b64_digit(c & 63),
    ]
}

/// The three digits of a final group of two bytes.
pub open spec fn enc_tail2(a: u8, b: u8) -> Seq<u8> {
    seq![b64_digit(a >> 2), b64_digit(((a & 3) << 4) | (b >> 4)), b64_digit((b & 15) << 2)]
}

/// The two digits of a final group of one byte.
pub open spec fn enc_tail1(a: u8) -> Seq<u8> {
    seq![b64_digit(a >> 2), b64_digit((a & 3) << 4)]
}

/// The base64url encoding, without padding, of a byte sequence.
pub open spec fn b64_encode(s: Seq<u8>) -> Seq<u8>
    decreases s.len(),
{
    if s.len() >= 3 {
        enc3(s[0], s[1], s[2]) + b64_encode(s.skip(3))
    } else if s.len() == 2 {
        enc_tail2(s[0], s[1])
    } else if s.len() == 1 {
        enc_tail1(s[0])
    } else {
        Seq::empty()
    }
}

/// The three bytes of a full group of four digit values.
pub open spec fn dec4(w: u8, x: u8, y: u8, z: u8) -> Seq<u8> {
    seq![(w << 2) | (x >> 4), (x << 4) | (y >> 2), (y << 6) | z]
}

/// The two bytes of a final group of three digit values.
pub open spec fn dec_tail3(w: u8, x: u8, y: u8) -> Seq<u8> {
    seq![(w << 2) | (x >> 4), (x << 4) | (y >> 2)]
}

/// The one byte of a final group of two digit values.
pub open spec fn dec_tail2(w: u8, x: u8) -> Seq<u8> {
    seq![(w << 2) | (x >> 4)]
}

/// True of the strings that strict decoding accepts: digits of the alphabet,
/// a length that is not 1 modulo 4, and zero unused bits in the final group.
pub open spec fn b64_decodable(s: Seq<u8>) -> bool
    decreases s.len(),
{
    if s.len() >= 4 {
        is_b64_digit(s[0]) && is_b64_digit(s[1]) && is_b64_digit(s[2]) && is_b64_digit(s[3])
            && b64_decodable(s.skip(4))
    } else if s.len() == 3 {
        is_b64_digit(s[0]) && is_b64_digit(s[1]) && is_b64_digit(s[2]) && (b64_val(s[2]) & 3) == 0
    } else if s.len() == 2 {
        is_b64_digit(s[0]) && is_b64_digit(s[1]) && (b64_val(s[1]) & 15) == 0
    } else if s.len() == 1 {
        false
    } else {
        true
    }
}

/// The bytes that a decodable string stands for.
pub open spec fn b64_decode(s: Seq<u8>) -> Seq<u8>
    decreases s.len(),
{
    if s.len() >= 4 {
        dec4(b64_val(s[0]), b64_val(s[1]), b64_val(s[2]), b64_val(s[3])) + b64_decode(s.skip(4))
    } else if s.len() == 3 {
        dec_tail3(b64_val(s[0]), b64_val(s[1]), b64_val(s[2]))
    } else if s.len() == 2 {
        dec_tail2(b64_val(s[0]), b64_val(s[1]))
    } else {
        Seq::empty()
    }
}

proof fn lemma_group3_bits(a: u8, b: u8, c: u8)
    ensures
        (a >> 2) < 64,
        (((a & 3) << 4) | (b >> 4)) < 64,
        (((b & 15) << 2) | (c >> 6)) < 64,
        (c & 63) < 64,
        ((a >> 2) << 2) | ((((a & 3) << 4) | (b >> 4)) >> 4) == a,
        ((((a & 3) << 4) | (b >> 4)) << 4) | (((((b & 15) << 2) | (c >> 6))) >> 2) == b,
        ((((b & 15) << 2) | (c >> 6)) << 6) | (c & 63) == c,
{
    assert((a >> 2) < 64 && (((a & 3) << 4) | (b >> 4)) < 64 && (((b & 15) << 2) | (c >> 6)) < 64
        && (c & 63) < 64 && (((a >> 2) << 2) | ((((a & 3) << 4) | (b >> 4)) >> 4) == a) && ((((a
        & 3) << 4) | (b >> 4)) << 4) | (((((b & 15) << 2) | (c >> 6))) >> 2) == b && ((((b & 15)
        << 2) | (c >> 6)) << 6) | (c & 63) == c) by (bit_vector);
}

proof fn lemma_tail2_bits(a: u8, b: u8)
    ensures
        (a >> 2) < 64,
        (((a & 3) << 4) | (b >> 4)) < 64,
        ((b & 15) << 2) < 64,
        (((b & 15) << 2) & 3) == 0,
        ((a >> 2) << 2) | ((((a & 3) << 4) | (b >> 4)) >> 4) == a,
        ((((a & 3) << 4) | (b >> 4)) << 4) | (((b & 15) << 2) >> 2) == b,
{
    assert((a >> 2) < 64 && (((a & 3) << 4) | (b >> 4)) < 64 && ((b & 15) << 2) < 64 && (((b & 15)
        << 2) & 3) == 0 && (((a >> 2) << 2) | ((((a & 3) << 4) | (b >> 4)) >> 4) == a) && ((((a
        & 3) << 4) | (b >> 4)) << 4) | (((b & 15) << 2) >> 2) == b) by (bit_vector);
}

proof fn lemma_tail1_bits(a: u8)
    ensures
        (a >> 2) < 64,
        ((a & 3) << 4) < 64,
        (((a & 3) << 4) & 15) == 0,
        ((a >> 2) << 2) | (((a & 3) << 4) >> 4) == a,
{
    assert((a >> 2) < 64 && ((a & 3) << 4) < 64 && (((a & 3) << 4) & 15) == 0 && (((a >> 2) << 2)
        | (((a & 3) << 4) >> 4) == a)) by (bit_vector);
}

proof fn lemma_canon4_bits(w: u8, x: u8, y: u8, z: u8)
    requires
        w < 64,
        x < 64,
        y < 64,
        z < 64,
    ensures
        ((w << 2) | (x >> 4)) >> 2 == w,
        ((((w << 2) | (x >> 4)) & 3) << 4) | (((x << 4) | (y >> 2)) >> 4) == x,
        ((((x << 4) | (y >> 2)) & 15) << 2) | (((y << 6) | z) >> 6) == y,
        ((y << 6) | z) & 63 == z,
{
    assert((((w << 2) | (x >> 4)) >> 2 == w) && (((((w << 2) | (x >> 4)) & 3) << 4) | (((x << 4)
        | (y >> 2)) >> 4) == x) && (((((x << 4) | (y >> 2)) & 15) << 2) | (((y << 6) | z) >> 6)
        == y) && (((y << 6) | z) & 63 == z)) by (bit_vector)
        requires
            w < 64 && x < 64 && y < 64 && z < 64,
    ;
}

proof fn lemma_canon3_bits(w: u8, x: u8, y: u8)
    requires
        w < 64,
        x < 64,
        y < 64,
        (y & 3) == 0,
    ensures
        ((w << 2) | (x >> 4)) >> 2 == w,
        ((((w << 2) | (x >> 4)) & 3) << 4) | (((x << 4) | (y >> 2)) >> 4) == x,
        (((x << 4) | (y >> 2)) & 15) << 2 == y,
{
    assert((((w << 2) | (x >> 4)) >> 2 == w) && (((((w << 2) | (x >> 4)) & 3) << 4) | (((x << 4)
        | (y >> 2)) >> 4) == x) && ((((x << 4) | (y >> 2)) & 15) << 2 == y)) by (bit_vector)
        requires
            w < 64 && x < 64 && y < 64 && (y & 3) == 0,
    ;
}

proof fn lemma_canon2_bits(w: u8, x: u8)
    requires
        w < 64,
        x < 64,
        (x & 15) == 0,
    ensures
        ((w << 2) | (x >> 4)) >> 2 == w,
        (((w << 2) | (x >> 4)) & 3) << 4 == x,
{
    assert((((w << 2) | (x >> 4)) >> 2 == w) && ((((w << 2) | (x >> 4)) & 3) << 4 == x))
        by (bit_vector)
        requires
            w < 64 && x < 64 && (x & 15) == 0,
    ;
}

/// Every byte of an encoding is a digit of the alphabet.
pub proof fn lemma_encode_digits(s: Seq<u8>)
    ensures
        forall|i: int| 0 <= i < b64_encode(s).len() ==> is_b64_digit(#[trigger] b64_encode(s)[i]),
    decreases s.len(),
{
    if s.len() >= 3 {
        lemma_group3_bits(s[0], s[1], s[2]);
        lemma_digit_val(s[0] >> 2);
        lemma_digit_val(((s[0] & 3) << 4) | (s[1] >> 4));
        lemma_digit_val(((s[1] & 15) << 2) | (s[2] >> 6));
        lemma_digit_val(s[2] & 63);
        lemma_encode_digits(s.skip(3));
        assert forall|i: int| 0 <= i < b64_encode(s).len() implies is_b64_digit(
            #[trigger] b64_encode(s)[i],
        ) by {
            if i < 4 {
                assert(b64_encode(s)[i] == enc3(s[0], s[1], s[2])[i]);
            } else {
                assert(b64_encode(s)[i] == b64_encode(s.skip(3))[i - 4]);
            }
        }
    } else if s.len() == 2 {
        lemma_tail2_bits(s[0], s[1]);
        lemma_digit_val(s[0] >> 2);
        lemma_digit_val(((s[0] & 3) << 4) | (s[1] >> 4));
        lemma_digit_val((s[1] & 15) << 2);
    } else if s.len() == 1 {
        lemma_tail1_bits(s[0]);
        lemma_digit_val(s[0] >> 2);
        lemma_digit_val((s[0] & 3) << 4);
    }
}

/// Encoding distributes over a split at a multiple of three bytes.
pub proof fn lemma_encode_concat(a: Seq<u8>, b: Seq<u8>)
    requires
        a.len() % 3 == 0,
    ensures
        b64_encode(a + b) == b64_encode(a) + b64_encode(b),
    decreases a.len(),
{
    if a.len() == 0 {
        assert(a + b =~= b);
        assert(b64_encode(a) + b64_encode(b) =~= b64_encode(b));
    } else {
        assert((a + b).skip(3) =~= a.skip(3) + b);
        assert((a + b)[0] == a[0] && (a + b)[1] == a[1] && (a + b)[2] == a[2]);
        lemma_encode_concat(a.skip(3), b);
        assert(b64_encode(a + b) =~= b64_encode(a) + b64_encode(b));
    }
}

/// Decoding distributes over a split at a multiple of four digits.
pub proof fn lemma_decode_concat(a: Seq<u8>, b: Seq<u8>)
    requires
        a.len() % 4 == 0,
    ensures
        b64_decode(a + b) == b64_decode(a) + b64_decode(b),
        b64_decodable(a + b) == (b64_decodable(a) && b64_decodable(b)),
    decreases a.len(),
{
    if a.len() == 0 {
        assert(a + b =~= b);
        assert(b64_decode(a) + b64_decode(b) =~= b64_decode(b));
    } else {
        assert((a + b).skip(4) =~= a.skip(4) + b);
        assert((a + b)[0] == a[0] && (a + b)[1] == a[1] && (a + b)[2] == a[2] && (a + b)[3]
            == a[3]);
        lemma_decode_concat(a.skip(4), b);
        assert(b64_decode(a + b) =~= b64_decode(a) + b64_decode(b));
    }
}

/// A decodable string never has length 1 modulo 4.
pub proof fn lemma_decodable_len(s: Seq<u8>)
    requires
        b64_decodable(s),
    ensures
        s.len() % 4 != 1,
    decreases s.len(),
{
    if s.len() >= 4 {
        lemma_decodable_len(s.skip(4));
    }
}

/// Decoding inverts encoding: every encoding is decodable and stands for the
/// bytes it was made from.
pub proof fn lemma_decode_encode(s: Seq<u8>)
    ensures
        b64_decodable(b64_encode(s)),
        b64_decode(b64_encode(s)) == s,
    decreases s.len(),
{
    if s.len() >= 3 {
        let a = s[0];
        let b = s[1];
        let c = s[2];
        lemma_group3_bits(a, b, c);
        lemma_digit_val(a >> 2);
        lemma_digit_val(((a & 3) << 4) | (b >> 4));
        lemma_digit_val(((b & 15) << 2) | (c >> 6));
        lemma_digit_val(c & 63);
        lemma_decode_encode(s.skip(3));
        lemma_decode_concat(enc3(a, b, c), b64_encode(s.skip(3)));
        assert(b64_encode(s) == enc3(a, b, c) + b64_encode(s.skip(3)));
        assert(enc3(a, b, c).skip(4) =~= Seq::<u8>::empty());
        assert(b64_decodable(Seq::<u8>::empty()));
        assert(b64_decode(Seq::<u8>::empty()) == Seq::<u8>::empty());
        assert(b64_decodable(enc3(a, b, c)));
        assert(b64_decode(enc3(a, b, c)) =~= seq![a, b, c]);
        assert(b64_decode(b64_encode(s)) =~= s);
    } else if s.len() == 2 {
        let a = s[0];
        let b = s[1];
        lemma_tail2_bits(a, b);
        lemma_digit_val(a >> 2);
        lemma_digit_val(((a & 3) << 4) | (b >> 4));
        lemma_digit_val((b & 15) << 2);
        assert(b64_decode(b64_encode(s)) =~= s);
    } else if s.len() == 1 {
        let a = s[0];
        lemma_tail1_bits(a);
        lemma_digit_val(a >> 2);
        lemma_digit_val((a & 3) << 4);
        assert(b64_decode(b64_encode(s)) =~= s);
    } else {
        assert(b64_decode(b64_encode(s)) =~= s);
    }
}

/// Encoding inverts decoding on decodable strings: strict decoding accepts
/// only canonical encodings.
pub proof fn lemma_encode_decode(s: Seq<u8>)
    requires
        b64_decodable(s),
    ensures
        b64_encode(b64_decode(s)) == s,
    decreases s.len(),
{
    if s.len() >= 4 {
        let w = b64_val(s[0]);
        let x = b64_val(s[1]);
        let y = b64_val(s[2]);
        let z = b64_val(s[3]);
        lemma_val_digit(s[0]);
        lemma_val_digit(s[1]);
        lemma_val_digit(s[2]);
        lemma_val_digit(s[3]);
        lemma_canon4_bits(w, x, y, z);
        lemma_encode_decode(s.skip(4));
        lemma_encode_concat(dec4(w, x, y, z), b64_decode(s.skip(4)));
        assert(dec4(w, x, y, z).skip(3) =~= Seq::<u8>::empty());
        assert(b64_encode(Seq::<u8>::empty()) == Seq::<u8>::empty());
        assert(b64_encode(dec4(w, x, y, z)) =~= s.take(4));
        assert(b64_decode(s) == dec4(w, x, y, z) + b64_decode(s.skip(4)));
        assert(s.take(4) + s.skip(4) =~= s);
        assert(b64_encode(b64_decode(s)) =~= s);
    } else if s.len() == 3 {
        let w = b64_val(s[0]);
        let x = b64_val(s[1]);
        let y = b64_val(s[2]);
        lemma_val_digit(s[0]);
        lemma_val_digit(s[1]);
        lemma_val_digit(s[2]);
        lemma_canon3_bits(w, x, y);
        assert(b64_encode(b64_decode(s)) =~= s);
    } else if s.len() == 2 {
        let w = b64_val(s[0]);
        let x = b64_val(s[1]);
        lemma_val_digit(s[0]);
        lemma_val_digit(s[1]);
        lemma_canon2_bits(w, x);
        assert(b64_encode(b64_decode(s)) =~= s);
    } else {
        assert(b64_encode(b64_decode(s)) =~= s);
    }
}

fn digit_of(v: u8) -> (r: u8)
    requires
        v < 64,
    ensures
        r == b64_digit(v),
{
    if v < 26 {
        v + 65
    } else if v < 52 {
        v + 71
    } else if v < 62 {
        v - 4
    } else if v == 62 {
        45
    } else {
        95
    }
}

fn is_digit(b: u8) -> (r: bool)
    ensures
        r == is_b64_digit(b),
{
    (65 <= b && b <= 90) || (97 <= b && b <= 122) || (48 <= b && b <= 57) || b == 45 || b == 95
}

fn val_of(b: u8) -> (r: u8)
    requires
        is_b64_digit(b),
    ensures
        r == b64_val(b),
        r < 64,
{
    proof {
        lemma_val_digit(b);
    }
    if 65 <= b && b <= 90 {
        b - 65
    } else if 97 <= b && b <= 122 {
        b - 71
    } else if 48 <= b && b <= 57 {
        b + 4
    } else if b == 45 {
        62
    } else {
        63
    }
}

/// Encodes bytes as base64url without padding.
pub fn encode(input: &[u8]) -> (r: Vec<u8>)
    ensures
        r@ == b64_encode(input@),
{
    let n = input.len();
    let mut out: Vec<u8> = Vec::new();
    let mut i: usize = 0;
    while n - i >= 3
        invariant
            n == input@.len(),
            0 <= i <= n,
            i % 3 == 0,
            out@ == b64_encode(input@.take(i as int)),
        decreases n - i,
    {
        let a = input[i];
        let b = input[i + 1];
        let c = input[i + 2];
        proof {
            lemma_group3_bits(a, b, c);
        }
        out.push(digit_of(a >> 2));
        out.push(digit_of(((a & 3) << 4) | (b >> 4)));
        out.push(digit_of(((b & 15) << 2) | (c >> 6)));
        out.push(digit_of(c & 63));
        proof {
            let t = input@.take(i as int);
            let g = input@.subrange(i as int, i as int + 3);
            assert(input@.take(i as int + 3) =~= t + g);
            lemma_encode_concat(t, g);
            assert(g.skip(3) =~= Seq::<u8>::empty());
            assert(b64_encode(Seq::<u8>::empty()) == Seq::<u8>::empty());
            assert(g[0] == a && g[1] == b && g[2] == c);
            assert(b64_encode(g) =~= enc3(a, b, c));
            assert(out@ =~= b64_encode(input@.take(i as int + 3)));
        }
        i = i + 3;
    }
    if n - i == 2 {
        let a = input[i];
        let b = input[i + 1];
        proof {
            lemma_tail2_bits(a, b);
        }
        out.push(digit_of(a >> 2));
        out.push(digit_of(((a & 3) << 4) | (b >> 4)));
        out.push(digit_of((b & 15) << 2));
        proof {
            let t = input@.take(i as int);
            let g = input@.subrange(i as int, n as int);
            assert(input@ =~= t + g);
            lemma_encode_concat(t, g);
            assert(b64_encode(g) =~= enc_tail2(a, b));
            assert(out@ =~= b64_encode(input@));
        }
    } else if n - i == 1 {
        let a = input[i];
        proof {
            lemma_tail1_bits(a);
        }
        out.push(digit_of(a >> 2));
        out.push(digit_of((a & 3) << 4));
        proof {
            let t = input@.take(i as int);
            let g = input@.subrange(i as int, n as int);
            assert(input@ =~= t + g);
            lemma_encode_concat(t, g);
            assert(b64_encode(g) =~= enc_tail1(a));
            assert(out@ =~= b64_encode(input@));
        }
    } else {
        proof {
            assert(input@.take(i as int) =~= input@);
        }
    }
    out
}

/// Decodes base64url without padding, strictly: `None` unless the input is a
/// canonical encoding.
pub fn decode(input: &[u8]) -> (r: Option<Vec<u8>>)
    ensures
        match r {
            Some(v) => b64_decodable(input@) && v@ == b64_decode(input@),
            None => !b64_decodable(input@),
        },
{
    let n = input.len();
    if n % 4 == 1 {
        proof {
            if b64_decodable(input@) {
                lemma_decodable_len(input@);
            }
        }
        return None;
    }
    let mut out: Vec<u8> = Vec::new();
    let mut i: usize = 0;
    proof {
        assert(input@.take(0) =~= Seq::<u8>::empty());
        assert(b64_decodable(Seq::<u8>::empty()));
        assert(b64_decode(Seq::<u8>::empty()) == Seq::<u8>::empty());
        assert(input@.skip(0) =~= input@);
    }
    while n - i >= 4
        invariant
            n == input@.len(),
            n % 4 != 1,
            0 <= i <= n,
            i % 4 == 0,
            (n - i) % 4 == n % 4,
            b64_decodable(input@.take(i as int)),
            out@ == b64_decode(input@.take(i as int)),
            b64_decodable(input@) == b64_decodable(input@.skip(i as int)),
        decreases n - i,
    {
        proof {
            let t = input@.take(i as int);
            let rest = input@.skip(i as int);
            assert(input@ =~= t + rest);
            lemma_decode_concat(t, rest);
        }
        let d0 = input[i];
        let d1 = input[i + 1];
        let d2 = input[i + 2];
        let d3 = input[i + 3];
        if !(is_digit(d0) && is_digit(d1) && is_digit(d2) && is_digit(d3)) {
            proof {
                let rest = input@.skip(i as int);
                assert(rest[0] == d0 && rest[1] == d1 && rest[2] == d2 && rest[3] == d3);
                assert(!b64_decodable(rest));
            }
            return None;
        }
        let w = val_of(d0);
        let x = val_of(d1);
        let y = val_of(d2);
        let z = val_of(d3);
        out.push((w << 2u32) | (x >> 4u32));
        out.push((x << 4u32) | (y >> 2u32));
        out.push((y << 6u32) | z);
        proof {
            let t = input@.take(i as int);
            let g = input@.subrange(i as int, i as int + 4);
            assert(input@.take(i as int + 4) =~= t + g);
            lemma_decode_concat(t, g);
            assert(g.skip(4) =~= Seq::<u8>::empty());
            assert(b64_decodable(Seq::<u8>::empty()));
            assert(b64_decode(Seq::<u8>::empty()) == Seq::<u8>::empty());
            assert(g[0] == d0 && g[1] == d1 && g[2] == d2 && g[3] == d3);
            assert(b64_decodable(g));
            assert(b64_decode(g) =~= dec4(w, x, y, z));
            assert(out@ =~= b64_decode(input@.take(i as int + 4)));
            let rest4 = input@.skip(i as int + 4);
            let rest = input@.skip(i as int);
            assert(rest.skip(4) =~= rest4);
            assert(b64_decodable(rest) == b64_decodable(rest4));
        }
        i = i + 4;
    }
    proof {
        let t = input@.take(i as int);
        let rest = input@.skip(i as int);
        assert(input@ =~= t + rest);
        lemma_decode_concat(t, rest);
    }
    if i == n {
        return Some(out);
    }
    if n - i == 2 {
        let d0 = input[i];
        let d1 = input[i + 1];
        proof {
            let rest = input@.skip(i as int);
            assert(rest[0] == d0 && rest[1] == d1);
        }
        if !(is_digit(d0) && is_digit(d1)) {
            return None;
        }
        let w = val_of(d0);
        let x = val_of(d1);
        if x & 15 != 0 {
            return None;
        }
        out.push((w << 2u32) | (x >> 4u32));
        proof {
            let rest = input@.skip(i as int);
            assert(b64_decodable(rest));
            assert(b64_decode(rest) =~= dec_tail2(w, x));
            assert(out@ =~= b64_decode(input@));
        }
        Some(out)
    } else {
        let d0 = input[i];
        let d1 = input[i + 1];
        let d2 = input[i + 2];
        proof {
            let rest = input@.skip(i as int);
            assert(rest.len() == 3);
            assert(rest[0] == d0 && rest[1] == d1 && rest[2] == d2);
        }
        if !(is_digit(d0) && is_digit(d1) && is_digit(d2)) {
            return None;
        }
        let w = val_of(d0);
        let x = val_of(d1);
        let y = val_of(d2);
        if y & 3 != 0 {
            return None;
        }
        out.push((w << 2u32) | (x >> 4u32));
        out.push((x << 4u32) | (y >> 2u32));
        proof {
            let rest = input@.skip(i as int);
            assert(b64_decodable(rest));
            assert(b64_decode(rest) =~= dec_tail3(w, x, y));
            assert(out@ =~= b64_decode(input@));
        }
        Some(out)
    }
}

} // verus!
