use crate::bytestr::{str_bytes, token_text};
use crate::claims::{claims_wf, Claims, ClaimsModel};
use crate::directory::UserDirectory;
use crate::errors::AppError;
use crate::hasher::{digest_matches, hash_password, verify_password};
use crate::role::{role_bytes, spec_role_of, Role};
use crate::token;
use crate::user::{request_wf, CreateUserRequest, LoginRequest, User, UserResponse};
use vstd::prelude::*;
use vstd::string::StringSliceAdditionalSpecFns;

verus! {

// The auth service: the sole owner of the business rules. Stateless
// orchestration over the directory, the credential hasher and the token
// codec; registration and login are its only mutations, and login mutates
// nothing.

/// Relies on `uuid::Uuid::new_v4` and its `Display` form: 36 characters of
/// lowercase hexadecimal digits and hyphens, so printable ASCII fit for a
/// token claim. The value is random, so nothing more is stated of it.
#[verifier::external_body]
fn fresh_uuid() -> (r: String)
    ensures
        r@.len() == 36,
        str_bytes(r@).len() == 36,
        token_text(str_bytes(r@)),
{
    uuid::Uuid::new_v4().to_string()
}

/// Relies on `chrono::Utc::now().timestamp()`: the clock decides the value,
/// so nothing is stated of it.
#[verifier::external_body]
pub(crate) fn now_unix() -> (r: i64) {
    chrono::Utc::now().timestamp()
}

pub struct AuthService {
    pub directory: UserDirectory,
    pub jwt_secret: String,
    pub jwt_expiration: u64,
}

impl AuthService {
    /// The signing secret as bytes.
    pub open spec fn secret_bytes(self) -> Seq<u8> {
        str_bytes(self.jwt_secret@)
    }

    /// The claims this service mints for a user at an expiry.
    pub open spec fn claims_for(user: User, exp: u64) -> ClaimsModel {
        ClaimsModel {
            sub: str_bytes(user.id@),
            email: str_bytes(user.email@),
            role: user.role,
            exp: exp,
        }
    }

    /// A login attempt that the business rules reject with the generic
    /// authentication error: no user carries the email, or the one that does
    /// holds a hash the password does not match.
    pub open spec fn login_rejected(self, email: Seq<char>, password: Seq<char>) -> bool {
        ||| !self.directory.email_taken(str_bytes(email))
        ||| exists|i: int|
            0 <= i < self.directory.users@.len() && str_bytes(
                (#[trigger] self.directory.users@[i]).email@,
            ) == str_bytes(email) && !digest_matches(
                password,
                self.directory.users@[i].password_hash@,
            )
    }

    /// A stored credential logs in: in a well-formed directory, if some user
    /// row carries the email and a hash the password matches — exactly what a
    /// successful registration with those credentials stores — then the
    /// business rules do not reject the attempt, so by `login`'s contract the
    /// generic authentication error cannot come.
    pub proof fn lemma_matching_credential_accepted(
        self,
        email: Seq<char>,
        password: Seq<char>,
        w: int,
    )
        requires
            self.directory.wf(),
            0 <= w < self.directory.users@.len(),
            str_bytes(self.directory.users@[w].email@) == str_bytes(email),
            digest_matches(password, self.directory.users@[w].password_hash@),
        ensures
            !self.login_rejected(email, password),
    {
        assert(self.directory.email_taken(str_bytes(email)));
        assert forall|i: int|
            0 <= i < self.directory.users@.len() && str_bytes(
                (#[trigger] self.directory.users@[i]).email@,
            ) == str_bytes(email) implies digest_matches(
            password,
            self.directory.users@[i].password_hash@,
        ) by {
            if i != w {
                assert(str_bytes(self.directory.users@[i].email@) != str_bytes(
                    self.directory.users@[w].email@,
                ));
            }
        }
    }

    pub fn new(directory: UserDirectory, jwt_secret: String, jwt_expiration: u64) -> (r:
        AuthService)
        ensures
            r.directory == directory,
            r.jwt_secret == jwt_secret,
            r.jwt_expiration == jwt_expiration,
    {
        AuthService { directory, jwt_secret, jwt_expiration }
    }

    /// Registers a user: rejects bad input and role tags outside the closed
    /// set, hashes the password, and creates the identity row and its role
    /// profile atomically. The response never carries the password hash.
    pub fn register_user(&mut self, request: CreateUserRequest) -> (r: Result<
        UserResponse,
        AppError,
    >)
        requires
            old(self).directory.wf(),
        ensures
            final(self).jwt_secret == old(self).jwt_secret,
            final(self).jwt_expiration == old(self).jwt_expiration,
            final(self).directory.wf(),
            match r {
                Ok(resp) => {
                    &&& request_wf(&request)
                    &&& spec_role_of(str_bytes(request.user_type@)) is Some
                    &&& !old(self).directory.email_taken(str_bytes(request.email@))
                    &&& final(self).directory.users@.len() == old(self).directory.users@.len() + 1
                    &&& final(self).directory.users@ == old(self).directory.users@.push(
                        final(self).directory.users@.last(),
                    )
                    &&& ({
                        let u = final(self).directory.users@.last();
                        &&& u.email@ == request.email@
                        &&& u.name@ == request.name@
                        &&& Some(u.role) == spec_role_of(str_bytes(request.user_type@))
                        &&& digest_matches(request.password@, u.password_hash@)
                        &&& final(self).directory.has_profile_for(u)
                        &&& resp.id@ == u.id@
                        &&& resp.email@ == u.email@
                        &&& resp.name@ == u.name@
                        &&& str_bytes(resp.user_type@) == role_bytes(u.role)
                    })
                },
                Err(e) => {
                    &&& final(self).directory.users@ == old(self).directory.users@
                    &&& final(self).directory.students@ == old(self).directory.students@
                    &&& final(self).directory.teachers@ == old(self).directory.teachers@
                    &&& final(self).directory.parents@ == old(self).directory.parents@
                    &&& (e is ValidationError || e is InternalServerError)
                    &&& (e is ValidationError <==> (!request_wf(&request) || spec_role_of(
                        str_bytes(request.user_type@),
                    ) is None || old(self).directory.email_taken(str_bytes(request.email@))))
                },
            },
    {
        if !request.validate() {
            return Err(AppError::ValidationError(String::from_str("Validation failed")));
        }
        let role = match Role::from_tag(request.user_type.as_str()) {
            Some(role) => role,
            None => {
                return Err(AppError::ValidationError(String::from_str("Invalid user type")));
            },
        };
        proof {
            crate::role::lemma_role_bytes_injective(role, role);
            assert(spec_role_of(str_bytes(request.user_type@)) == Some(role)) by {
                assert(str_bytes(request.user_type@) == role_bytes(role));
            }
        }
        if self.directory.find_by_email(request.email.as_str()).is_some() {
            return Err(AppError::ValidationError(String::from_str("User already exists")));
        }
        let password_hash = match hash_password(request.password.as_str()) {
            Some(h) => h,
            None => {
                return Err(
                    AppError::InternalServerError(String::from_str("Password hashing failed")),
                );
            },
        };
        let id = fresh_uuid();
        let now = now_unix();
        let user = User {
            id,
            email: request.email,
            password_hash,
            name: request.name,
            role,
            profile_image: None,
            created_at: Some(now),
            updated_at: Some(now),
            metadata: None,
        };
        let resp = user.to_response();
        match self.directory.create(user) {
            Ok(()) => Ok(resp),
            Err(e) => Err(e),
        }
    }

    /// Issues a token for a user at a known clock reading: the expiry is the
    /// reading plus the configured ttl. Deterministic in its inputs.
    pub fn create_jwt_at(&self, user: &User, now_secs: u64) -> (r: Result<String, AppError>)
        ensures
            match r {
                Ok(t) => {
                    &&& now_secs + self.jwt_expiration <= u64::MAX
                    &&& claims_wf(Self::claims_for(*user, (now_secs + self.jwt_expiration) as u64))
                    &&& str_bytes(t@) == token::token_bytes(
                        Self::claims_for(*user, (now_secs + self.jwt_expiration) as u64),
                        self.secret_bytes(),
                    )
                },
                Err(e) => e is InternalServerError,
            },
            (now_secs + self.jwt_expiration <= u64::MAX && token_text(str_bytes(user.id@))
                && token_text(str_bytes(user.email@))) ==> r is Ok,
    {
        if self.jwt_expiration > u64::MAX - now_secs {
            return Err(AppError::InternalServerError(String::from_str("JWT creation failed")));
        }
        let exp = now_secs + self.jwt_expiration;
        let claims = Claims {
            sub: user.id.clone(),
            email: user.email.clone(),
            role: user.role,
            exp,
        };
        let secret = vstd::slice::slice_to_vec(self.jwt_secret.as_str().as_bytes());
        proof {
            assert(claims@ =~= Self::claims_for(*user, exp));
            crate::claims::lemma_claims_wf_congr(claims@, Self::claims_for(*user, exp));
            assert(secret@ == self.secret_bytes());
        }
        match token::issue(&claims, &secret) {
            Some(t) => Ok(t),
            None => {
                proof {
                    if token_text(str_bytes(user.id@)) {
                        crate::bytestr::lemma_token_text_congr(
                            str_bytes(user.id@),
                            Self::claims_for(*user, exp).sub,
                        );
                    }
                    if token_text(str_bytes(user.email@)) {
                        crate::bytestr::lemma_token_text_congr(
                            str_bytes(user.email@),
                            Self::claims_for(*user, exp).email,
                        );
                    }
                }
                Err(AppError::InternalServerError(String::from_str("JWT creation failed")))
            },
        }
    }

    /// Issues a token for a user with the expiry computed from the clock.
    pub fn create_jwt(&self, user: &User) -> (r: Result<String, AppError>)
        ensures
            match r {
                Ok(t) => exists|e: u64|
                    claims_wf(#[trigger] Self::claims_for(*user, e)) && str_bytes(t@)
                        == token::token_bytes(Self::claims_for(*user, e), self.secret_bytes()),
                Err(e) => e is InternalServerError,
            },
    {
        let now = now_unix();
        if now < 0 {
            return Err(AppError::InternalServerError(String::from_str("JWT creation failed")));
        }
        match self.create_jwt_at(user, now as u64) {
            Ok(t) => Ok(t),
            Err(e) => Err(e),
        }
    }

    /// Validates a token at a known clock reading: `Ok` exactly on a token
    /// this service's secret signed for well-formed claims that have not
    /// expired; every failure is the one authentication error.
    pub fn validate_jwt_at(&self, token: &str, now: u64) -> (r: Result<Claims, AppError>)
        ensures
            match r {
                Ok(c) => token::valid_token_for(token.spec_bytes(), self.secret_bytes(), c@) && now
                    < c@.exp,
                Err(e) => {
                    &&& e is AuthenticationError
                    &&& e.spec_message() == "Invalid token"@
                    &&& forall|c: ClaimsModel|
                        token::valid_token_for(token.spec_bytes(), self.secret_bytes(), c)
                            ==> now >= c.exp
                },
            },
    {
        let secret = vstd::slice::slice_to_vec(self.jwt_secret.as_str().as_bytes());
        proof {
            assert(secret@ == self.secret_bytes());
        }
        match token::open_at(token, &secret, now) {
            Ok(c) => Ok(c),
            Err(e) => {
                proof {
                    if e == token::TokenError::Expired {
                        let c0 = choose|c: ClaimsModel|
                            token::valid_token_for(token.spec_bytes(), secret@, c) && now >= c.exp;
                        assert forall|c: ClaimsModel|
                            token::valid_token_for(token.spec_bytes(), self.secret_bytes(), c)
                                implies now >= c.exp by {
                            token::lemma_valid_token_unique(token.spec_bytes(), secret@, c, c0);
                        }
                    }
                }
                Err(AppError::AuthenticationError(String::from_str("Invalid token")))
            },
        }
    }

    /// Validates a token with the clock read inside; on success the token is
    /// one this service's secret signed.
    pub fn validate_jwt(&self, token: &str) -> (r: Result<Claims, AppError>)
        ensures
            match r {
                Ok(c) => token::valid_token_for(token.spec_bytes(), self.secret_bytes(), c@),
                Err(e) => e is AuthenticationError && e.spec_message() == "Invalid token"@,
            },
    {
        let now = now_unix();
        if now < 0 {
            return Err(AppError::AuthenticationError(String::from_str("Invalid token")));
        }
        match self.validate_jwt_at(token, now as u64) {
            Ok(c) => Ok(c),
            Err(e) => Err(e),
        }
    }

    /// Logs a user in: an unknown email and a wrong password yield one and
    /// the same generic authentication error, so a response reveals nothing
    /// about which of the two failed.
    pub fn login(&self, request: LoginRequest) -> (r: Result<(String, UserResponse), AppError>)
        requires
            self.directory.wf(),
        ensures
            match r {
                Ok(p) => exists|i: int|
                    {
                        let u = #[trigger] self.directory.users@[i];
                        &&& 0 <= i < self.directory.users@.len()
                        &&& str_bytes(u.email@) == str_bytes(request.email@)
                        &&& digest_matches(request.password@, u.password_hash@)
                        &&& p.1.id@ == u.id@
                        &&& p.1.email@ == u.email@
                        &&& p.1.name@ == u.name@
                        &&& str_bytes(p.1.user_type@) == role_bytes(u.role)
                        &&& exists|e: u64|
                            claims_wf(#[trigger] Self::claims_for(u, e)) && str_bytes(p.0@)
                                == token::token_bytes(Self::claims_for(u, e), self.secret_bytes())
                    },
                Err(e) => {
                    &&& (e is AuthenticationError || e is InternalServerError)
                    &&& (e is AuthenticationError <==> self.login_rejected(request.email@, request.password@))
                    &&& (e is AuthenticationError ==> e.spec_message() == "Invalid credentials"@)
                },
            },
    {
        let user = match self.directory.find_by_email(request.email.as_str()) {
            Some(u) => u,
            None => {
                return Err(
                    AppError::AuthenticationError(String::from_str("Invalid credentials")),
                );
            },
        };
        if !verify_password(request.password.as_str(), user.password_hash.as_str()) {
            proof {
                let i = choose|i: int|
                    0 <= i < self.directory.users@.len() && #[trigger] self.directory.users@[i]
                        == *user;
                assert(self.login_rejected(request.email@, request.password@)) by {
                    assert(str_bytes(self.directory.users@[i].email@) == str_bytes(
                        request.email@,
                    ));
                }
            }
            return Err(AppError::AuthenticationError(String::from_str("Invalid credentials")));
        }
        proof {
            let w = choose|i: int|
                0 <= i < self.directory.users@.len() && #[trigger] self.directory.users@[i]
                    == *user;
            assert(self.directory.email_taken(str_bytes(request.email@))) by {
                assert(str_bytes(self.directory.users@[w].email@) == str_bytes(request.email@));
            }
            assert forall|i: int|
                0 <= i < self.directory.users@.len() && str_bytes(
                    (#[trigger] self.directory.users@[i]).email@,
                ) == str_bytes(request.email@) implies digest_matches(
                request.password@,
                self.directory.users@[i].password_hash@,
            ) by {
                if i != w {
                    assert(str_bytes(self.directory.users@[i].email@) != str_bytes(
                        self.directory.users@[w].email@,
                    ));
                }
            }
            assert(!self.login_rejected(request.email@, request.password@));
        }
        let token = match self.create_jwt(user) {
            Ok(t) => t,
            Err(e) => {
                return Err(e);
            },
        };
        let resp = user.to_response();
        proof {
            let w = choose|i: int|
                0 <= i < self.directory.users@.len() && #[trigger] self.directory.users@[i]
                    == *user;
            assert(self.directory.users@[w] == *user);
        }
        Ok((token, resp))
    }

    /// Fetches a user by id; an absent id is the not-found error.
    pub fn get_user_by_id(&self, id: &str) -> (r: Result<&User, AppError>)
        ensures
            match r {
                Ok(u) => str_bytes(u.id@) == id.spec_bytes() && exists|i: int|
                    0 <= i < self.directory.users@.len() && #[trigger] self.directory.users@[i]
                        == *u,
                Err(e) => {
                    &&& e is NotFound
                    &&& e.spec_message() == "User not found"@
                    &&& !self.directory.id_taken(id.spec_bytes())
                },
            },
    {
        match self.directory.find_by_id(id) {
            Some(u) => Ok(u),
            None => Err(AppError::NotFound(String::from_str("User not found"))),
        }
    }
}

} // verus!
