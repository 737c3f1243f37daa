use crate::bytestr::{is_token_text, str_bytes, token_text};
use crate::role::Role;
use vstd::prelude::*;
use vstd::string::StringSliceAdditionalSpecFns;

verus! {

// The identity records of the directory. A user row never serialises its
// password hash outward: the public view is `UserResponse`, which has no
// hash field at all. Timestamps are unix seconds.

/// An identity record.
#[derive(Debug)]
pub struct User {
    pub id: String,
    pub email: String,
    pub password_hash: String,
    pub name: String,
    pub role: Role,
    pub profile_image: Option<String>,
    pub created_at: Option<i64>,
    pub updated_at: Option<i64>,
    pub metadata: Option<String>,
}

/// The role profile of a student, keyed by the user id.
#[derive(Debug)]
pub struct Student {
    pub id: String,
    pub grade: String,
    pub subjects: Vec<String>,
    pub parent_id: Option<String>,
    pub school_id: Option<String>,
    pub moodle_user_id: Option<i32>,
}

/// The role profile of a teacher, keyed by the user id.
#[derive(Debug)]
pub struct Teacher {
    pub id: String,
    pub subjects: Vec<String>,
    pub grades: Vec<String>,
    pub school_id: Option<String>,
    pub department: Option<String>,
    pub moodle_user_id: Option<i32>,
}

/// The role profile of a parent, keyed by the user id.
#[derive(Debug)]
pub struct Parent {
    pub id: String,
    pub children_ids: Vec<String>,
    pub occupation: Option<String>,
}

/// A registration request.
#[derive(Debug)]
pub struct CreateUserRequest {
    pub email: String,
    pub password: String,
    pub name: String,
    pub user_type: String,
}

/// A login request.
#[derive(Debug)]
pub struct LoginRequest {
    pub email: String,
    pub password: String,
}

/// The public view of a user: everything but the password hash and metadata.
#[derive(Debug)]
pub struct UserResponse {
    pub id: String,
    pub email: String,
    pub name: String,
    pub user_type: String,
    pub profile_image: Option<String>,
    pub created_at: Option<i64>,
}

/// What `validator`'s e-mail check decides for a string: the HTML5 e-mail
/// shape, deterministic in the string.
pub uninterp spec fn email_valid(s: Seq<char>) -> bool;

/// Relies on `validator::ValidateEmail::validate_email` for `&str`: a pure
/// check of the string against the HTML5 e-mail shape.
#[verifier::external_body]
fn check_email(s: &str) -> (r: bool)
    ensures
        r == email_valid(s@),
{
    validator::ValidateEmail::validate_email(&s)
}

/// A request the service accepts: an e-mail that passes the e-mail check and
/// fits in a token claim, a password of at least 8 bytes, a name of at least
/// 2 bytes.
pub open spec fn request_wf(req: &CreateUserRequest) -> bool {
    &&& token_text(str_bytes(req.email@))
    &&& email_valid(req.email@)
    &&& str_bytes(req.password@).len() >= 8
    &&& str_bytes(req.name@).len() >= 2
}

impl CreateUserRequest {
    /// Checks the request against the validation rules.
    pub fn validate(&self) -> (r: bool)
        ensures
            r == request_wf(self),
    {
        let email = self.email.as_str();
        let password = self.password.as_str();
        let name = self.name.as_str();
        let email_fits = is_token_text(email);
        let email_ok = check_email(email);
        let password_ok = password.as_bytes().len() >= 8;
        let name_ok = name.as_bytes().len() >= 2;
        let r = email_fits && email_ok && password_ok && name_ok;
        proof {
            assert(email.spec_bytes() == str_bytes(self.email@));
            assert(password.spec_bytes() == str_bytes(self.password@));
            assert(name.spec_bytes() == str_bytes(self.name@));
            if email_fits {
                crate::bytestr::lemma_token_text_congr(
                    email.spec_bytes(),
                    str_bytes(self.email@),
                );
            }
            if !email_fits && token_text(str_bytes(self.email@)) {
                crate::bytestr::lemma_token_text_congr(
                    str_bytes(self.email@),
                    email.spec_bytes(),
                );
            }
            assert(r == request_wf(self));
        }
        r
    }
}

impl User {
    /// The public view of this user; the password hash and metadata stay
    /// behind.
    pub fn to_response(&self) -> (r: UserResponse)
        ensures
            r.id@ == self.id@,
            r.email@ == self.email@,
            r.name@ == self.name@,
            str_bytes(r.user_type@) == crate::role::role_bytes(self.role),
            r.created_at == self.created_at,
            r.profile_image is Some <==> self.profile_image is Some,
            self.profile_image is Some ==> r.profile_image->0@ == self.profile_image->0@,
    {
        let tag = self.role.tag();
        UserResponse {
            id: self.id.clone(),
            email: self.email.clone(),
            name: self.name.clone(),
            user_type: String::from_str(tag),
            profile_image: match &self.profile_image {
                Some(p) => Some(p.clone()),
                None => None,
            },
            created_at: self.created_at,
        }
    }
}

impl UserResponse {
    /// The public view of a user record.
    pub fn from(user: User) -> (r: UserResponse)
        ensures
            r.id@ == user.id@,
            r.email@ == user.email@,
            r.name@ == user.name@,
            str_bytes(r.user_type@) == crate::role::role_bytes(user.role),
            r.created_at == user.created_at,
    {
        user.to_response()
    }
}

} // verus!
