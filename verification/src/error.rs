//! Errors of the service and the HTTP answer each one gets.
use vstd::prelude::*;

verus! {

/// An error of the service.  `Database` holds the text of the database
/// driver's error.
#[derive(Debug)]
pub enum AppError {
    NotFound(String),
    BadRequest(String),
    Unauthorized,
    Database(String),
    S3(String),
    Internal(String),
}

/// The HTTP answer to an error: a status code and the message of the JSON
/// body `{"error": message}`.
pub struct ErrorResponse {
    pub status: u16,
    pub error: String,
}

/// The description of an error (its `Display` text).
pub open spec fn describe(e: AppError) -> Seq<char> {
    match e {
        AppError::NotFound(m) => "not found: "@ + m@,
        AppError::BadRequest(m) => "bad request: "@ + m@,
        AppError::Unauthorized => "unauthorized"@,
        AppError::Database(m) => "database error: "@ + m@,
        AppError::S3(m) => "s3 error: "@ + m@,
        AppError::Internal(m) => "internal error: "@ + m@,
    }
}

/// The HTTP status of an error.
pub open spec fn status_of(e: AppError) -> u16 {
    match e {
        AppError::NotFound(_) => 404,
        AppError::BadRequest(_) => 400,
        AppError::Unauthorized => 401,
        AppError::Database(_) => 500,
        AppError::S3(_) => 500,
        AppError::Internal(_) => 500,
    }
}

/// The message a client sees: the detail of client errors, a fixed text for
/// server errors.
pub open spec fn public_message(e: AppError) -> Seq<char> {
    match e {
        AppError::NotFound(m) => m@,
        AppError::BadRequest(m) => m@,
        AppError::Unauthorized => "unauthorized"@,
        AppError::Database(_) => "internal server error"@,
        AppError::S3(_) => "storage error"@,
        AppError::Internal(_) => "internal server error"@,
    }
}

fn prefixed(prefix: &str, m: &String) -> (s: String)
    ensures
        s@ == prefix@ + m@,
{
    let mut s = prefix.to_owned();
    s.append(m.as_str());
    s
}

impl AppError {
    /// The description of the error.
    pub fn describe(&self) -> (s: String)
        ensures
            s@ == describe(*self),
    {
        match self {
            AppError::NotFound(m) => prefixed("not found: ", m),
            AppError::BadRequest(m) => prefixed("bad request: ", m),
            AppError::Unauthorized => "unauthorized".to_owned(),
            AppError::Database(m) => prefixed("database error: ", m),
            AppError::S3(m) => prefixed("s3 error: ", m),
            AppError::Internal(m) => prefixed("internal error: ", m),
        }
    }

    /// The HTTP answer to the error.  Client errors (4xx) carry their detail;
    /// server errors (5xx) carry a fixed text that reveals nothing of the
    /// cause.
    pub fn into_response(self) -> (r: ErrorResponse)
        ensures
            r.status == status_of(self),
            r.error@ == public_message(self),
            r.status >= 500 ==> (r.error@ == "internal server error"@ || r.error@
                == "storage error"@),
    {
        match self {
            AppError::NotFound(m) => ErrorResponse { status: 404, error: m },
            AppError::BadRequest(m) => ErrorResponse { status: 400, error: m },
            AppError::Unauthorized => ErrorResponse { status: 401, error: "unauthorized".to_owned() },
            AppError::Database(_) => ErrorResponse {
                status: 500,
                error: "internal server error".to_owned(),
            },
            AppError::S3(_) => ErrorResponse { status: 500, error: "storage error".to_owned() },
            AppError::Internal(_) => ErrorResponse {
                status: 500,
                error: "internal server error".to_owned(),
            },
        }
    }
}

} // verus!
