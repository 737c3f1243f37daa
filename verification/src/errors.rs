use vstd::prelude::*;

verus! {

/// The error taxonomy of the service. Database and internal failures map to
/// 500, bad input to 400, bad credentials or bad tokens to 401, and a missing
/// resource to 404.
#[derive(Debug, Clone)]
pub enum AppError {
    DatabaseError(String),
    ValidationError(String),
    AuthenticationError(String),
    NotFound(String),
    InternalServerError(String),
}

impl AppError {
    /// The HTTP status code that the error envelope carries.
    pub open spec fn spec_status(&self) -> u16 {
        match self {
            AppError::DatabaseError(_) => 500,
            AppError::ValidationError(_) => 400,
            AppError::AuthenticationError(_) => 401,
            AppError::NotFound(_) => 404,
            AppError::InternalServerError(_) => 500,
        }
    }

    /// The message that the error envelope carries.
    pub open spec fn spec_message(&self) -> Seq<char> {
        match self {
            AppError::DatabaseError(m) => m@,
            AppError::ValidationError(m) => m@,
            AppError::AuthenticationError(m) => m@,
            AppError::NotFound(m) => m@,
            AppError::InternalServerError(m) => m@,
        }
    }

    pub fn status_code(&self) -> (r: u16)
        ensures
            r == self.spec_status(),
    {
        match self {
            AppError::DatabaseError(_) => 500,
            AppError::ValidationError(_) => 400,
            AppError::AuthenticationError(_) => 401,
            AppError::NotFound(_) => 404,
            AppError::InternalServerError(_) => 500,
        }
    }

    pub fn message(&self) -> (r: &String)
        ensures
            r@ == self.spec_message(),
    {
        match self {
            AppError::DatabaseError(m) => m,
            AppError::ValidationError(m) => m,
            AppError::AuthenticationError(m) => m,
            AppError::NotFound(m) => m,
            AppError::InternalServerError(m) => m,
        }
    }
}

} // verus!
