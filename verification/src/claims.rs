use crate::bytestr::{str_bytes, token_text};
use crate::role::Role;
use vstd::prelude::*;

verus! {

/// The signed payload of a bearer token: subject (user id), email, role and
/// expiry as unix seconds. Immutable once issued; it exists only inside a
/// token's lifetime.
#[derive(Debug, Clone, PartialEq, Eq)]
pub struct Claims {
    pub sub: String,
    pub email: String,
    pub role: Role,
    pub exp: u64,
}

/// The model of a claims value: the claim strings as their UTF-8 bytes.
#[verifier::ext_equal]
pub struct ClaimsModel {
    pub sub: Seq<u8>,
    pub email: Seq<u8>,
    pub role: Role,
    pub exp: u64,
}

impl View for Claims {
    type V = ClaimsModel;

    open spec fn view(&self) -> ClaimsModel {
        ClaimsModel {
            sub: str_bytes(self.sub@),
            email: str_bytes(self.email@),
            role: self.role,
            exp: self.exp,
        }
    }
}

/// Well-formed claims: the subject and the email hold printable ASCII with no
/// quote and no backslash, so they stand in a token body unescaped.
pub open spec fn claims_wf(c: ClaimsModel) -> bool {
    token_text(c.sub) && token_text(c.email)
}

/// Well-formedness carries across equal models even where the two are
/// written as different terms.
pub proof fn lemma_claims_wf_congr(a: ClaimsModel, b: ClaimsModel)
    requires
        a == b,
    ensures
        claims_wf(a) == claims_wf(b),
{
    if claims_wf(a) {
        crate::bytestr::lemma_token_text_congr(a.sub, b.sub);
        crate::bytestr::lemma_token_text_congr(a.email, b.email);
    }
    if claims_wf(b) {
        crate::bytestr::lemma_token_text_congr(b.sub, a.sub);
        crate::bytestr::lemma_token_text_congr(b.email, a.email);
    }
}

} // verus!
