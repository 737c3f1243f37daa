use crate::bytestr::bytes_eq;
use crate::claims::{Claims, ClaimsModel};
use crate::errors::AppError;
use crate::service::AuthService;
use crate::token;
use vstd::prelude::*;
use vstd::string::StringSliceAdditionalSpecFns;

verus! {

// The request gate: extracts a bearer token from the authorization header
// value and validates it, attaching the verified claims to the request by
// returning them; everything else is rejected with the authentication
// error before any downstream work. A header that is absent or not of the
// two-part `Bearer <token>` shape is rejected without invoking the codec.
// A pure gate: no side effects beyond the accept-or-reject decision.

/// The bytes of `Bearer ` — the scheme, one space.
pub open spec fn bearer_prefix() -> Seq<u8> {
    seq![66u8, 101u8, 97u8, 114u8, 101u8, 114u8, 32u8]
}

/// Whether a header value has the bearer shape, and if so which token bytes
/// it carries.
pub open spec fn bearer_shape(hb: Seq<u8>) -> bool {
    hb.len() >= 7 && hb.subrange(0, 7) == bearer_prefix()
}

/// Validates the authorization header of a request at a known clock
/// reading: `Ok` exactly when the header is present, has the bearer shape,
/// and carries the canonical unexpired token of well-formed claims under the
/// service's secret; those claims are handed to the caller. Every rejection
/// is the one authentication error.
pub fn authenticate_at(service: &AuthService, header: Option<&str>, now: u64) -> (r: Result<
    Claims,
    AppError,
>)
    ensures
        match r {
            Ok(c) => header is Some && bearer_shape(header->0.spec_bytes())
                && token::valid_token_for(
                header->0.spec_bytes().skip(7),
                service.secret_bytes(),
                c@,
            ) && now < c@.exp,
            Err(e) => {
                &&& e is AuthenticationError
                &&& match header {
                    None => true,
                    Some(h) => bearer_shape(h.spec_bytes()) ==> forall|c: ClaimsModel|
                        token::valid_token_for(
                            h.spec_bytes().skip(7),
                            service.secret_bytes(),
                            c,
                        ) ==> now >= c.exp,
                }
            },
        },
{
    let h = match header {
        Some(h) => h,
        None => {
            return Err(
                AppError::AuthenticationError(String::from_str("Missing authorization header")),
            );
        },
    };
    let hb = h.as_bytes();
    let prefix: Vec<u8> = vec![66u8, 101u8, 97u8, 114u8, 101u8, 114u8, 32u8];
    proof {
        assert(prefix@ =~= bearer_prefix());
    }
    if hb.len() < 7 || !bytes_eq(&hb[0..7], prefix.as_slice()) {
        return Err(
            AppError::AuthenticationError(
                String::from_str("Invalid authorization header format"),
            ),
        );
    }
    let tok = &hb[7..hb.len()];
    proof {
        assert(tok@ =~= h.spec_bytes().skip(7));
    }
    let secret = vstd::slice::slice_to_vec(service.jwt_secret.as_str().as_bytes());
    proof {
        assert(secret@ == service.secret_bytes());
    }
    match token::open_bytes_at(tok, &secret, now) {
        Ok(c) => Ok(c),
        Err(e) => {
            proof {
                if e == token::TokenError::Expired {
                    let c0 = choose|c: ClaimsModel|
                        token::valid_token_for(tok@, secret@, c) && now >= c.exp;
                    assert forall|c: ClaimsModel|
                        token::valid_token_for(
                            h.spec_bytes().skip(7),
                            service.secret_bytes(),
                            c,
                        ) implies now >= c.exp by {
                        token::lemma_valid_token_unique(tok@, secret@, c, c0);
                    }
                }
            }
            Err(AppError::AuthenticationError(String::from_str("Invalid token")))
        },
    }
}

/// Validates the authorization header with the clock read inside; on success
/// the claims come from a token the service's secret signed.
pub fn authenticate(service: &AuthService, header: Option<&str>) -> (r: Result<Claims, AppError>)
    ensures
        match r {
            Ok(c) => header is Some && bearer_shape(header->0.spec_bytes())
                && token::valid_token_for(
                header->0.spec_bytes().skip(7),
                service.secret_bytes(),
                c@,
            ),
            Err(e) => e is AuthenticationError,
        },
{
    let now = crate::service::now_unix();
    if now < 0 {
        return Err(AppError::AuthenticationError(String::from_str("Invalid token")));
    }
    authenticate_at(service, header, now as u64)
}

} // verus!
