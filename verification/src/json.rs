use crate::bytestr::push_bytes;
use crate::claims::{Claims, ClaimsModel};
use crate::role::{role_bytes, Role};
use vstd::prelude::*;

verus! {

// The token body is the one JSON document this system writes and reads:
// a flat object with the claim fields in a fixed order and no spaces,
//     {"sub":"...","email":"...","role":"...","exp":N}
// The claim strings carry printable ASCII without quotes or backslashes, so
// no escaping is involved; the expiry is a decimal number without leading
// zeros.

/// The canonical decimal digits of a natural number.
pub open spec fn dec_nat(n: nat) -> Seq<u8>
    decreases n,
{
    if n < 10 {
        seq![(48 + n) as u8]
    } else {
        dec_nat(n / 10) + seq![(48 + n % 10) as u8]
    }
}

pub open spec fn dec_u64(n: u64) -> Seq<u8> {
    dec_nat(n as nat)
}

/// The number that a digit string stands for.
pub open spec fn num_val(s: Seq<u8>) -> nat
    decreases s.len(),
{
    if s.len() == 0 {
        0
    } else {
        num_val(s.drop_last()) * 10 + (if s.last() >= 48 {
            (s.last() - 48) as nat
        } else {
            0
        })
    }
}

pub open spec fn all_digits(s: Seq<u8>) -> bool {
    forall|i: int| 0 <= i < s.len() ==> 48 <= #[trigger] s[i] <= 57
}

pub proof fn lemma_dec_digits(n: nat)
    ensures
        dec_nat(n).len() >= 1,
        all_digits(dec_nat(n)),
        dec_nat(n)[0] == 48 <==> n == 0,
    decreases n,
{
    if n < 10 {
    } else {
        lemma_dec_digits(n / 10);
        assert forall|i: int| 0 <= i < dec_nat(n).len() implies 48 <= #[trigger] dec_nat(n)[i]
            <= 57 by {
            if i < dec_nat(n / 10).len() {
                assert(dec_nat(n)[i] == dec_nat(n / 10)[i]);
            }
        }
        assert(dec_nat(n)[0] == dec_nat(n / 10)[0]);
    }
}

pub proof fn lemma_dec_val(n: nat)
    ensures
        num_val(dec_nat(n)) == n,
    decreases n,
{
    if n < 10 {
        assert(dec_nat(n).drop_last() =~= Seq::<u8>::empty());
        assert(num_val(Seq::<u8>::empty()) == 0);
    } else {
        lemma_dec_val(n / 10);
        assert(dec_nat(n).drop_last() =~= dec_nat(n / 10));
        assert(dec_nat(n).last() == (48 + n % 10) as u8);
    }
}

proof fn lemma_val_pos(s: Seq<u8>)
    requires
        s.len() >= 1,
        all_digits(s),
        s[0] != 48,
    ensures
        num_val(s) >= 1,
    decreases s.len(),
{
    if s.len() == 1 {
    } else {
        assert(s.drop_last()[0] == s[0]);
        lemma_val_pos(s.drop_last());
    }
}

/// A nonempty digit string without a leading zero is the canonical spelling
/// of its value.
pub proof fn lemma_canon_num(s: Seq<u8>)
    requires
        s.len() >= 1,
        all_digits(s),
        s[0] == 48 ==> s.len() == 1,
    ensures
        dec_nat(num_val(s)) == s,
    decreases s.len(),
{
    if s.len() == 1 {
        assert(s.drop_last() =~= Seq::<u8>::empty());
        assert(num_val(Seq::<u8>::empty()) == 0);
        assert(num_val(s) == (s[0] - 48) as nat);
        assert(dec_nat(num_val(s)) =~= s);
    } else {
        let p = s.drop_last();
        assert(p[0] == s[0]);
        assert(forall|i: int| 0 <= i < p.len() ==> 48 <= #[trigger] p[i] <= 57) by {
            assert(forall|i: int| 0 <= i < p.len() ==> p[i] == s[i]);
        }
        lemma_val_pos(p);
        lemma_canon_num(p);
        let d = (s.last() - 48) as nat;
        assert(num_val(s) == num_val(p) * 10 + d);
        assert(num_val(s) / 10 == num_val(p) && num_val(s) % 10 == d) by {
            assert(num_val(p) * 10 + d >= 10) by (nonlinear_arith)
                requires
                    num_val(p) >= 1 && d >= 0,
            ;
            assert((num_val(p) * 10 + d) / 10 == num_val(p) && (num_val(p) * 10 + d) % 10 == d)
                by (nonlinear_arith)
                requires
                    0 <= d < 10,
            ;
        }
        assert(num_val(s) >= 10);
        assert(dec_nat(num_val(s)) == dec_nat(num_val(p)) + seq![(48 + num_val(s) % 10) as u8]);
        assert(dec_nat(num_val(s)) =~= s);
    }
}

/// The value of a digit prefix never exceeds the value of the whole string.
pub proof fn lemma_val_prefix(s: Seq<u8>, j: int)
    requires
        0 <= j <= s.len(),
    ensures
        num_val(s.take(j)) <= num_val(s),
    decreases s.len(),
{
    if j == s.len() {
        assert(s.take(j) =~= s);
    } else {
        let p = s.drop_last();
        assert(s.take(j) =~= p.take(j));
        lemma_val_prefix(p, j);
        assert(num_val(s) == num_val(p) * 10 + (if s.last() >= 48 {
            (s.last() - 48) as nat
        } else {
            0
        }));
        assert(num_val(p) * 10 >= num_val(p)) by (nonlinear_arith);
    }
}

/// Writes the canonical decimal digits of a number.
pub fn format_u64(n: u64) -> (r: Vec<u8>)
    ensures
        r@ == dec_u64(n),
    decreases n,
{
    if n < 10 {
        let r: Vec<u8> = vec![48 + (n as u8)];
        proof {
            assert(r@ =~= dec_nat(n as nat));
        }
        r
    } else {
        let mut r = format_u64(n / 10);
        r.push(48 + ((n % 10) as u8));
        proof {
            assert((n / 10) as nat == (n as nat) / 10);
            assert((n % 10) as nat == (n as nat) % 10);
            assert(r@ =~= dec_nat(n as nat));
        }
        r
    }
}

/// Reads a number in canonical decimal form; `None` on anything else, and in
/// particular on any digit string whose value does not fit in a `u64`.
pub fn parse_u64(s: &[u8]) -> (r: Option<u64>)
    ensures
        match r {
            Some(n) => s@ == dec_u64(n),
            None => forall|n: u64| s@ != dec_u64(n),
        },
{
    let len = s.len();
    if len == 0 {
        proof {
            assert forall|n: u64| s@ != dec_u64(n) by {
                lemma_dec_digits(n as nat);
            }
        }
        return None;
    }
    if s[0] == 48 && len > 1 {
        proof {
            assert forall|n: u64| s@ != dec_u64(n) by {
                lemma_dec_digits(n as nat);
            }
        }
        return None;
    }
    let mut acc: u64 = 0;
    let mut i: usize = 0;
    while i < len
        invariant
            len == s@.len(),
            len >= 1,
            s@[0] == 48 ==> len == 1,
            0 <= i <= len,
            all_digits(s@.take(i as int)),
            acc == num_val(s@.take(i as int)),
        decreases len - i,
    {
        let b = s[i];
        if !(48 <= b && b <= 57) {
            proof {
                assert forall|n: u64| s@ != dec_u64(n) by {
                    lemma_dec_digits(n as nat);
                    if s@ == dec_u64(n) {
                        assert(48 <= s@[i as int] <= 57);
                    }
                }
            }
            return None;
        }
        let d = b - 48;
        proof {
            assert(s@.take(i as int + 1).drop_last() =~= s@.take(i as int));
            assert(s@.take(i as int + 1).last() == b);
            assert(num_val(s@.take(i as int + 1)) == num_val(s@.take(i as int)) * 10 + d);
        }
        if acc > 1844674407370955161u64 || (acc == 1844674407370955161u64 && d > 5) {
            proof {
                let next = num_val(s@.take(i as int + 1));
                assert(next == acc * 10 + d);
                assert(next > u64::MAX) by (nonlinear_arith)
                    requires
                        next == acc * 10 + d,
                        acc > 1844674407370955161u64 || (acc == 1844674407370955161u64 && d > 5),
                        d >= 0,
                ;
                assert forall|n: u64| s@ != dec_u64(n) by {
                    if s@ == dec_u64(n) {
                        lemma_dec_val(n as nat);
                        lemma_val_prefix(s@, i as int + 1);
                        assert(num_val(s@) == n as nat);
                    }
                }
            }
            return None;
        }
        acc = acc * 10 + (d as u64);
        proof {
            assert(forall|j: int|
                0 <= j < i as int + 1 ==> 48 <= #[trigger] s@.take(i as int + 1)[j] <= 57);
        }
        i = i + 1;
    }
    proof {
        assert(s@.take(len as int) =~= s@);
        lemma_canon_num(s@);
        assert(dec_nat(num_val(s@)) == s@);
        assert(dec_u64(acc) == s@);
    }
    Some(acc)
}

/// `{"sub":"`
pub open spec fn lit_sub() -> Seq<u8> {
    seq![123u8, 34u8, 115u8, 117u8, 98u8, 34u8, 58u8, 34u8]
}

/// `","email":"`
pub open spec fn lit_email() -> Seq<u8> {
    seq![34u8, 44u8, 34u8, 101u8, 109u8, 97u8, 105u8, 108u8, 34u8, 58u8, 34u8]
}

/// `","role":"`
pub open spec fn lit_role() -> Seq<u8> {
    seq![34u8, 44u8, 34u8, 114u8, 111u8, 108u8, 101u8, 34u8, 58u8, 34u8]
}

/// `","exp":`
pub open spec fn lit_exp() -> Seq<u8> {
    seq![34u8, 44u8, 34u8, 101u8, 120u8, 112u8, 34u8, 58u8]
}

/// The canonical body of a token: the claim fields in fixed order, no spaces.
pub open spec fn json_body(c: ClaimsModel) -> Seq<u8> {
    lit_sub() + c.sub + lit_email() + c.email + lit_role() + role_bytes(c.role) + lit_exp()
        + dec_u64(c.exp) + seq![125u8]
}

pub open spec fn no_quote(s: Seq<u8>) -> bool {
    forall|i: int| 0 <= i < s.len() ==> #[trigger] s[i] != 34
}

/// The segment layout of a canonical body, by offsets.
pub proof fn lemma_json_body_segments(c: ClaimsModel)
    ensures
        ({
            let b = json_body(c);
            let q1 = 8 + c.sub.len() as int;
            let q2 = q1 + 11 + c.email.len() as int;
            let q3 = q2 + 10 + role_bytes(c.role).len() as int;
            let n = q3 + 8 + dec_u64(c.exp).len() as int + 1;
            &&& b.len() == n
            &&& b.subrange(0, 8) == lit_sub()
            &&& b.subrange(8, q1) == c.sub
            &&& b.subrange(q1, q1 + 11) == lit_email()
            &&& b.subrange(q1 + 11, q2) == c.email
            &&& b.subrange(q2, q2 + 10) == lit_role()
            &&& b.subrange(q2 + 10, q3) == role_bytes(c.role)
            &&& b.subrange(q3, q3 + 8) == lit_exp()
            &&& b.subrange(q3 + 8, n - 1) == dec_u64(c.exp)
            &&& b[n - 1] == 125
        }),
{
    let b = json_body(c);
    let q1 = 8 + c.sub.len() as int;
    let q2 = q1 + 11 + c.email.len() as int;
    let q3 = q2 + 10 + role_bytes(c.role).len() as int;
    let n = q3 + 8 + dec_u64(c.exp).len() as int + 1;
    assert(b.subrange(0, 8) =~= lit_sub());
    assert(b.subrange(8, q1) =~= c.sub);
    assert(b.subrange(q1, q1 + 11) =~= lit_email());
    assert(b.subrange(q1 + 11, q2) =~= c.email);
    assert(b.subrange(q2, q2 + 10) =~= lit_role());
    assert(b.subrange(q2 + 10, q3) =~= role_bytes(c.role));
    assert(b.subrange(q3, q3 + 8) =~= lit_exp());
    assert(b.subrange(q3 + 8, n - 1) =~= dec_u64(c.exp));
}

/// A role tag holds no quote.
pub proof fn lemma_role_no_quote(r: Role)
    ensures
        no_quote(role_bytes(r)),
{
}

/// Decimal digits hold no quote.
pub proof fn lemma_dec_no_quote(n: u64)
    ensures
        no_quote(dec_u64(n)),
{
    lemma_dec_digits(n as nat);
}

/// Two claim values with the same canonical body are equal: the body
/// determines the claims.
#[verifier::rlimit(100)]
pub proof fn lemma_json_body_injective(c1: ClaimsModel, c2: ClaimsModel)
    requires
        no_quote(c1.sub),
        no_quote(c1.email),
        no_quote(c2.sub),
        no_quote(c2.email),
        json_body(c1) == json_body(c2),
    ensures
        c1.sub == c2.sub,
        c1.email == c2.email,
        c1.role == c2.role,
        c1.exp == c2.exp,
{
    let b = json_body(c1);
    lemma_json_body_segments(c1);
    lemma_json_body_segments(c2);
    lemma_role_no_quote(c1.role);
    lemma_role_no_quote(c2.role);
    lemma_dec_no_quote(c1.exp);
    lemma_dec_no_quote(c2.exp);
    let s1 = c1.sub.len() as int;
    let s2 = c2.sub.len() as int;
    // the first quote at or after offset 8 ends the subject in both layouts
    assert(b[8 + s1] == 34 && b[8 + s2] == 34);
    if s1 < s2 {
        assert(b[8 + s1] == c2.sub[s1]);
        assert(false);
    }
    if s2 < s1 {
        assert(b[8 + s2] == c1.sub[s2]);
        assert(false);
    }
    assert(c1.sub =~= c2.sub);
    let q1 = 8 + s1;
    let e1 = c1.email.len() as int;
    let e2 = c2.email.len() as int;
    assert(b[q1 + 11 + e1] == 34 && b[q1 + 11 + e2] == 34);
    if e1 < e2 {
        assert(b[q1 + 11 + e1] == c2.email[e1]);
        assert(false);
    }
    if e2 < e1 {
        assert(b[q1 + 11 + e2] == c1.email[e2]);
        assert(false);
    }
    assert(c1.email =~= c2.email);
    let q2 = q1 + 11 + e1;
    let r1 = role_bytes(c1.role).len() as int;
    let r2 = role_bytes(c2.role).len() as int;
    assert(b[q2 + 10 + r1] == 34 && b[q2 + 10 + r2] == 34);
    if r1 < r2 {
        assert(b[q2 + 10 + r1] == role_bytes(c2.role)[r1]);
        assert(false);
    }
    if r2 < r1 {
        assert(b[q2 + 10 + r2] == role_bytes(c1.role)[r2]);
        assert(false);
    }
    assert(role_bytes(c1.role) =~= role_bytes(c2.role));
    crate::role::lemma_role_bytes_injective(c1.role, c2.role);
    let q3 = q2 + 10 + r1;
    assert(b.subrange(q3 + 8, b.len() - 1) == dec_u64(c1.exp));
    assert(b.subrange(q3 + 8, b.len() - 1) == dec_u64(c2.exp));
    lemma_dec_val(c1.exp as nat);
    lemma_dec_val(c2.exp as nat);
    assert(num_val(dec_u64(c1.exp)) == num_val(dec_u64(c2.exp)));
}

/// Writes the canonical body of well-formed claims.
pub fn format_claims(c: &Claims) -> (r: Vec<u8>)
    ensures
        r@ == json_body(c@),
{
    let mut out: Vec<u8> = Vec::new();
    let l1: Vec<u8> = vec![123u8, 34u8, 115u8, 117u8, 98u8, 34u8, 58u8, 34u8];
    let l2: Vec<u8> = vec![34u8, 44u8, 34u8, 101u8, 109u8, 97u8, 105u8, 108u8, 34u8, 58u8, 34u8];
    let l3: Vec<u8> = vec![34u8, 44u8, 34u8, 114u8, 111u8, 108u8, 101u8, 34u8, 58u8, 34u8];
    let l4: Vec<u8> = vec![34u8, 44u8, 34u8, 101u8, 120u8, 112u8, 34u8, 58u8];
    proof {
        assert(l1@ =~= lit_sub());
        assert(l2@ =~= lit_email());
        assert(l3@ =~= lit_role());
        assert(l4@ =~= lit_exp());
    }
    push_bytes(&mut out, l1.as_slice());
    push_bytes(&mut out, c.sub.as_str().as_bytes());
    push_bytes(&mut out, l2.as_slice());
    push_bytes(&mut out, c.email.as_str().as_bytes());
    push_bytes(&mut out, l3.as_slice());
    push_bytes(&mut out, c.role.tag().as_bytes());
    push_bytes(&mut out, l4.as_slice());
    let digits = format_u64(c.exp);
    push_bytes(&mut out, digits.as_slice());
    out.push(125u8);
    proof {
        assert(out@ =~= json_body(c@));
    }
    out
}

/// The first quote at or after a position.
fn find_quote(s: &[u8], from: usize) -> (r: Option<usize>)
    requires
        from <= s@.len(),
    ensures
        match r {
            Some(q) => from <= q < s@.len() && s@[q as int] == 34 && forall|j: int|
                from <= j < q ==> #[trigger] s@[j] != 34,
            None => forall|j: int| from <= j < s@.len() ==> #[trigger] s@[j] != 34,
        },
{
    let n = s.len();
    let mut i: usize = from;
    while i < n
        invariant
            n == s@.len(),
            from <= i <= n,
            forall|j: int| from <= j < i ==> #[trigger] s@[j] != 34,
        decreases n - i,
    {
        if s[i] == 34 {
            return Some(i);
        }
        i = i + 1;
    }
    None
}

/// Whether the slice holds the given literal at the given position.
fn match_lit(s: &[u8], at: usize, lit: &[u8]) -> (r: bool)
    requires
        at <= s@.len(),
    ensures
        r == (at + lit@.len() <= s@.len() && s@.subrange(
            at as int,
            at as int + lit@.len() as int,
        ) == lit@),
{
    let n = s.len();
    let m = lit.len();
    if n - at < m {
        return false;
    }
    let mut j: usize = 0;
    while j < m
        invariant
            n == s@.len(),
            m == lit@.len(),
            at + m <= n,
            0 <= j <= m,
            forall|k: int| 0 <= k < j ==> s@[at + k] == lit@[k],
        decreases m - j,
    {
        if s[at + j] != lit[j] {
            proof {
                if s@.subrange(at as int, at as int + m as int) == lit@ {
                    assert(s@.subrange(at as int, at as int + m as int)[j as int] == lit@[j as int]);
                }
            }
            return false;
        }
        j = j + 1;
    }
    proof {
        assert(s@.subrange(at as int, at as int + m as int) =~= lit@);
    }
    true
}

/// A byte string whose segments are the canonical segments of some claims is
/// that claims value's canonical body.
pub proof fn lemma_body_assemble(s: Seq<u8>, c: ClaimsModel, q1: int, q2: int, q3: int)
    requires
        8 <= q1,
        q1 + 11 <= q2,
        q2 + 10 <= q3,
        q3 + 8 < s.len(),
        c.sub == s.subrange(8, q1),
        c.email == s.subrange(q1 + 11, q2),
        role_bytes(c.role) == s.subrange(q2 + 10, q3),
        dec_u64(c.exp) == s.subrange(q3 + 8, s.len() - 1),
        s.subrange(0, 8) == lit_sub(),
        s.subrange(q1, q1 + 11) == lit_email(),
        s.subrange(q2, q2 + 10) == lit_role(),
        s.subrange(q3, q3 + 8) == lit_exp(),
        s[s.len() - 1] == 125,
    ensures
        s == json_body(c),
{
    lemma_json_body_segments(c);
    let b = json_body(c);
    assert(b.len() == s.len());
    assert forall|i: int| 0 <= i < s.len() implies s[i] == b[i] by {
        if i < 8 {
            assert(s[i] == s.subrange(0, 8)[i]);
            assert(b[i] == b.subrange(0, 8)[i]);
        } else if i < q1 {
            assert(s[i] == s.subrange(8, q1)[i - 8]);
            assert(b[i] == b.subrange(8, q1)[i - 8]);
        } else if i < q1 + 11 {
            assert(s[i] == s.subrange(q1, q1 + 11)[i - q1]);
            assert(b[i] == b.subrange(q1, q1 + 11)[i - q1]);
        } else if i < q2 {
            assert(s[i] == s.subrange(q1 + 11, q2)[i - q1 - 11]);
            assert(b[i] == b.subrange(q1 + 11, q2)[i - q1 - 11]);
        } else if i < q2 + 10 {
            assert(s[i] == s.subrange(q2, q2 + 10)[i - q2]);
            assert(b[i] == b.subrange(q2, q2 + 10)[i - q2]);
        } else if i < q3 {
            assert(s[i] == s.subrange(q2 + 10, q3)[i - q2 - 10]);
            assert(b[i] == b.subrange(q2 + 10, q3)[i - q2 - 10]);
        } else if i < q3 + 8 {
            assert(s[i] == s.subrange(q3, q3 + 8)[i - q3]);
            assert(b[i] == b.subrange(q3, q3 + 8)[i - q3]);
        } else if i < s.len() - 1 {
            assert(s[i] == s.subrange(q3 + 8, s.len() - 1)[i - q3 - 8]);
            assert(b[i] == b.subrange(q3 + 8, s.len() - 1)[i - q3 - 8]);
        }
    }
    assert(s =~= b);
}


/// In a canonical body, the first quote at or after offset 8 closes the
/// subject.
pub proof fn lemma_pin_q1(s: Seq<u8>, c: ClaimsModel, q1: int)
    requires
        no_quote(c.sub),
        s == json_body(c),
        8 <= q1 < s.len(),
        s[q1] == 34,
        forall|j: int| 8 <= j < q1 ==> #[trigger] s[j] != 34,
    ensures
        q1 == 8 + c.sub.len(),
{
    lemma_json_body_segments(c);
    let b1 = 8 + c.sub.len() as int;
    assert(s[b1] == s.subrange(b1, b1 + 11)[0]);
    if q1 < b1 {
        assert(s[q1] == s.subrange(8, b1)[q1 - 8]);
    }
}

/// In a canonical body, the first quote after the email literal closes the
/// email.
pub proof fn lemma_pin_q2(s: Seq<u8>, c: ClaimsModel, q1: int, q2: int)
    requires
        no_quote(c.email),
        s == json_body(c),
        q1 == 8 + c.sub.len(),
        q1 + 11 <= q2 < s.len(),
        s[q2] == 34,
        forall|j: int| q1 + 11 <= j < q2 ==> #[trigger] s[j] != 34,
    ensures
        q2 == q1 + 11 + c.email.len(),
{
    lemma_json_body_segments(c);
    let b2 = q1 + 11 + c.email.len() as int;
    assert(s[b2] == s.subrange(b2, b2 + 10)[0]);
    if q2 < b2 {
        assert(s[q2] == s.subrange(q1 + 11, b2)[q2 - q1 - 11]);
    }
}

/// In a canonical body, the first quote after the role literal closes the
/// role tag.
pub proof fn lemma_pin_q3(s: Seq<u8>, c: ClaimsModel, q2: int, q3: int)
    requires
        s == json_body(c),
        q2 == 19 + c.sub.len() + c.email.len(),
        q2 + 10 <= q3 < s.len(),
        s[q3] == 34,
        forall|j: int| q2 + 10 <= j < q3 ==> #[trigger] s[j] != 34,
    ensures
        q3 == q2 + 10 + role_bytes(c.role).len(),
{
    lemma_json_body_segments(c);
    lemma_role_no_quote(c.role);
    let b3 = q2 + 10 + role_bytes(c.role).len() as int;
    assert(s[b3] == s.subrange(b3, b3 + 8)[0]);
    if q3 < b3 {
        assert(s[q3] == s.subrange(q2 + 10, b3)[q3 - q2 - 10]);
    }
}

/// Reads a canonical token body: `Some` exactly on the canonical body of a
/// claims value whose strings are quote-free, and then the parts are those
/// claims.
#[verifier::rlimit(100)]
pub fn parse_body(s: &[u8]) -> (r: Option<(Vec<u8>, Vec<u8>, Role, u64)>)
    ensures
        match r {
            Some(p) => {
                &&& s@ == json_body(ClaimsModel { sub: p.0@, email: p.1@, role: p.2, exp: p.3 })
                &&& no_quote(p.0@)
                &&& no_quote(p.1@)
            },
            None => forall|c: ClaimsModel|
                no_quote(c.sub) && no_quote(c.email) ==> s@ != json_body(c),
        },
{
    let n = s.len();
    let l1: Vec<u8> = vec![123u8, 34u8, 115u8, 117u8, 98u8, 34u8, 58u8, 34u8];
    let l2: Vec<u8> = vec![34u8, 44u8, 34u8, 101u8, 109u8, 97u8, 105u8, 108u8, 34u8, 58u8, 34u8];
    let l3: Vec<u8> = vec![34u8, 44u8, 34u8, 114u8, 111u8, 108u8, 101u8, 34u8, 58u8, 34u8];
    let l4: Vec<u8> = vec![34u8, 44u8, 34u8, 101u8, 120u8, 112u8, 34u8, 58u8];
    proof {
        assert(l1@ =~= lit_sub());
        assert(l2@ =~= lit_email());
        assert(l3@ =~= lit_role());
        assert(l4@ =~= lit_exp());
    }
    if !match_lit(s, 0, l1.as_slice()) {
        proof {
            assert forall|c: ClaimsModel|
                no_quote(c.sub) && no_quote(c.email) implies s@ != json_body(c) by {
                if s@ == json_body(c) {
                    lemma_json_body_segments(c);
                }
            }
        }
        return None;
    }
    let q1 = match find_quote(s, 8) {
        Some(q) => q,
        None => {
            proof {
                assert forall|c: ClaimsModel|
                    no_quote(c.sub) && no_quote(c.email) implies s@ != json_body(c) by {
                    if s@ == json_body(c) {
                        lemma_json_body_segments(c);
                        let b1 = 8 + c.sub.len() as int;
                        assert(s@[b1] == s@.subrange(b1, b1 + 11)[0]);
                    }
                }
            }
            return None;
        },
    };
    if !match_lit(s, q1, l2.as_slice()) {
        proof {
            assert forall|c: ClaimsModel|
                no_quote(c.sub) && no_quote(c.email) implies s@ != json_body(c) by {
                if s@ == json_body(c) {
                    lemma_pin_q1(s@, c, q1 as int);
                    lemma_json_body_segments(c);
                }
            }
        }
        return None;
    }
    let q2 = match find_quote(s, q1 + 11) {
        Some(q) => q,
        None => {
            proof {
                assert forall|c: ClaimsModel|
                    no_quote(c.sub) && no_quote(c.email) implies s@ != json_body(c) by {
                    if s@ == json_body(c) {
                        lemma_pin_q1(s@, c, q1 as int);
                        lemma_json_body_segments(c);
                        let b2 = q1 + 11 + c.email.len() as int;
                        assert(s@[b2] == s@.subrange(b2, b2 + 10)[0]);
                    }
                }
            }
            return None;
        },
    };
    if !match_lit(s, q2, l3.as_slice()) {
        proof {
            assert forall|c: ClaimsModel|
                no_quote(c.sub) && no_quote(c.email) implies s@ != json_body(c) by {
                if s@ == json_body(c) {
                    lemma_pin_q1(s@, c, q1 as int);
                    lemma_pin_q2(s@, c, q1 as int, q2 as int);
                    lemma_json_body_segments(c);
                }
            }
        }
        return None;
    }
    let q3 = match find_quote(s, q2 + 10) {
        Some(q) => q,
        None => {
            proof {
                assert forall|c: ClaimsModel|
                    no_quote(c.sub) && no_quote(c.email) implies s@ != json_body(c) by {
                    if s@ == json_body(c) {
                        lemma_pin_q1(s@, c, q1 as int);
                        lemma_pin_q2(s@, c, q1 as int, q2 as int);
                        lemma_json_body_segments(c);
                        let b3 = q2 + 10 + role_bytes(c.role).len() as int;
                        assert(s@[b3] == s@.subrange(b3, b3 + 8)[0]);
                    }
                }
            }
            return None;
        },
    };
    let role = match Role::from_tag_bytes(&s[q2 + 10..q3]) {
        Some(role) => role,
        None => {
            proof {
                assert forall|c: ClaimsModel|
                    no_quote(c.sub) && no_quote(c.email) implies s@ != json_body(c) by {
                    if s@ == json_body(c) {
                        lemma_pin_q1(s@, c, q1 as int);
                        lemma_pin_q2(s@, c, q1 as int, q2 as int);
                        lemma_pin_q3(s@, c, q2 as int, q3 as int);
                        lemma_json_body_segments(c);
                        assert(s@.subrange(q2 as int + 10, q3 as int) == role_bytes(c.role));
                    }
                }
            }
            return None;
        },
    };
    if !match_lit(s, q3, l4.as_slice()) {
        proof {
            assert forall|c: ClaimsModel|
                no_quote(c.sub) && no_quote(c.email) implies s@ != json_body(c) by {
                if s@ == json_body(c) {
                    lemma_pin_q1(s@, c, q1 as int);
                    lemma_pin_q2(s@, c, q1 as int, q2 as int);
                    lemma_pin_q3(s@, c, q2 as int, q3 as int);
                    lemma_json_body_segments(c);
                }
            }
        }
        return None;
    }
    let num_start = q3 + 8;
    if n - num_start < 2 || s[n - 1] != 125 {
        proof {
            assert forall|c: ClaimsModel|
                no_quote(c.sub) && no_quote(c.email) implies s@ != json_body(c) by {
                if s@ == json_body(c) {
                    lemma_pin_q1(s@, c, q1 as int);
                    lemma_pin_q2(s@, c, q1 as int, q2 as int);
                    lemma_pin_q3(s@, c, q2 as int, q3 as int);
                    lemma_json_body_segments(c);
                    lemma_dec_digits(c.exp as nat);
                }
            }
        }
        return None;
    }
    let expv = match parse_u64(&s[num_start..n - 1]) {
        Some(v) => v,
        None => {
            proof {
                assert forall|c: ClaimsModel|
                    no_quote(c.sub) && no_quote(c.email) implies s@ != json_body(c) by {
                    if s@ == json_body(c) {
                        lemma_pin_q1(s@, c, q1 as int);
                        lemma_pin_q2(s@, c, q1 as int, q2 as int);
                        lemma_pin_q3(s@, c, q2 as int, q3 as int);
                        lemma_json_body_segments(c);
                        assert(s@.subrange(num_start as int, n as int - 1) == dec_u64(c.exp));
                    }
                }
            }
            return None;
        },
    };
    let sub = vstd::slice::slice_to_vec(&s[8..q1]);
    let email = vstd::slice::slice_to_vec(&s[q1 + 11..q2]);
    proof {
        let m = ClaimsModel { sub: sub@, email: email@, role, exp: expv };
        assert(sub@ == s@.subrange(8, q1 as int));
        assert(email@ == s@.subrange(q1 as int + 11, q2 as int));
        assert(role_bytes(role) == s@.subrange(q2 as int + 10, q3 as int));
        assert(dec_u64(expv) == s@.subrange(num_start as int, n as int - 1));
        lemma_body_assemble(s@, m, q1 as int, q2 as int, q3 as int);
        assert forall|j: int| 0 <= j < sub@.len() implies #[trigger] sub@[j] != 34 by {
            assert(sub@[j] == s@[8 + j]);
        }
        assert forall|j: int| 0 <= j < email@.len() implies #[trigger] email@[j] != 34 by {
            assert(email@[j] == s@[q1 as int + 11 + j]);
        }
    }
    Some((sub, email, role, expv))
}

} // verus!
