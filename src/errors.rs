use vstd::prelude::*;

verus! {

/// Relies on bcrypt::BcryptError: carried through unchanged.
#[verifier::external_type_specification]
#[verifier::external_body]
pub struct ExBcryptError(bcrypt::BcryptError);

/// Relies on csv::Error: carried through unchanged.
#[verifier::external_type_specification]
#[verifier::external_body]
pub struct ExCsvError(csv::Error);

/// Every way a request can fail.
#[derive(Debug)]
pub enum AppError {
    /// Durable storage could not complete the operation.
    StorageError(String),
    /// Password hashing or verification failed inside the hashing library.
    HashingError(bcrypt::BcryptError),
    /// The uploaded multipart stream was malformed.
    UploadError(String),
    /// The uploaded CSV could not be parsed.
    ParseError(csv::Error),
    /// A user with the requested name already exists.
    DuplicateUsername,
    /// Missing session, wrong credentials, or a resource owned by someone else.
    Unauthorized,
    /// The requested row does not exist.
    NotFound,
}

/// The HTTP status code that each kind of error is reported with.
pub open spec fn status_of(e: AppError) -> u16 {
    match e {
        AppError::StorageError(_) => 500,
        AppError::HashingError(_) => 500,
        AppError::UploadError(_) => 400,
        AppError::ParseError(_) => 400,
        AppError::DuplicateUsername => 400,
        AppError::Unauthorized => 401,
        AppError::NotFound => 404,
    }
}

impl AppError {
    /// The HTTP status code that this error is reported with.
    pub fn status_code(&self) -> (r: u16)
        ensures
            r == status_of(*self),
    {
        match self {
            AppError::StorageError(_) => 500,
            AppError::HashingError(_) => 500,
            AppError::UploadError(_) => 400,
            AppError::ParseError(_) => 400,
            AppError::DuplicateUsername => 400,
            AppError::Unauthorized => 401,
            AppError::NotFound => 404,
        }
    }
}

} // verus!
