//! Error kinds, their stable codes, HTTP status mapping, and the
//! wire-format error body.

use vstd::prelude::*;
use crate::text;

verus! {

/// Error body sent to clients.
pub struct ApiError {
    pub code: String,
    pub message: String,
    pub details: Option<String>,
    pub hint: Option<String>,
}

/// The error kinds of the pipeline.
#[derive(Debug, Clone)]
pub enum Error {
    NotFound(String),
    BadRequest(String),
    Unauthorized(String),
    Forbidden(String),
    Conflict(String),
    Sql(String),
    Pool(String),
    Internal(String),
    SingleObjectExpected(usize),
}

/// Status for a raw database error message, judged by its wording.
pub open spec fn spec_sql_error_status(m: Seq<char>) -> int {
    if text::contains_seq_ci(m, "VIOLATION OF PRIMARY KEY"@) || text::contains_seq_ci(
        m,
        "VIOLATION OF UNIQUE KEY"@,
    ) || text::contains_seq_ci(m, "CANNOT INSERT DUPLICATE"@) || text::contains_seq_ci(
        m,
        "UNIQUE CONSTRAINT"@,
    ) {
        409
    } else if text::contains_seq_ci(m, "FOREIGN KEY"@) {
        409
    } else if text::contains_seq_ci(m, "PERMISSION DENIED"@) || text::contains_seq_ci(
        m,
        "ACCESS DENIED"@,
    ) {
        403
    } else if text::contains_seq_ci(m, "LOGIN FAILED"@) {
        401
    } else if text::contains_seq_ci(m, "INVALID OBJECT NAME"@) || text::contains_seq_ci(
        m,
        "DOES NOT EXIST"@,
    ) {
        404
    } else if text::contains_seq_ci(m, "CONVERSION FAILED"@) || text::contains_seq_ci(
        m,
        "SYNTAX ERROR"@,
    ) || text::contains_seq_ci(m, "INCORRECT SYNTAX"@) {
        400
    } else {
        500
    }
}

/// Maps a raw database error message to an HTTP status code.
pub fn sql_error_to_status(msg: &str) -> (r: u16)
    ensures
        r as int == spec_sql_error_status(msg@),
{
    if text::contains_str_ci(msg, "VIOLATION OF PRIMARY KEY") || text::contains_str_ci(
        msg,
        "VIOLATION OF UNIQUE KEY",
    ) || text::contains_str_ci(msg, "CANNOT INSERT DUPLICATE") || text::contains_str_ci(
        msg,
        "UNIQUE CONSTRAINT",
    ) {
        409
    } else if text::contains_str_ci(msg, "FOREIGN KEY") {
        409
    } else if text::contains_str_ci(msg, "PERMISSION DENIED") || text::contains_str_ci(
        msg,
        "ACCESS DENIED",
    ) {
        403
    } else if text::contains_str_ci(msg, "LOGIN FAILED") {
        401
    } else if text::contains_str_ci(msg, "INVALID OBJECT NAME") || text::contains_str_ci(
        msg,
        "DOES NOT EXIST",
    ) {
        404
    } else if text::contains_str_ci(msg, "CONVERSION FAILED") || text::contains_str_ci(
        msg,
        "SYNTAX ERROR",
    ) || text::contains_str_ci(msg, "INCORRECT SYNTAX") {
        400
    } else {
        500
    }
}

/// The HTTP status each error kind maps to.
pub open spec fn spec_status_code(e: &Error) -> int {
    match e {
        Error::NotFound(_) => 404,
        Error::BadRequest(_) => 400,
        Error::Unauthorized(_) => 401,
        Error::Forbidden(_) => 403,
        Error::Conflict(_) => 409,
        Error::Sql(m) => spec_sql_error_status(m@),
        Error::Pool(_) => 503,
        Error::Internal(_) => 500,
        Error::SingleObjectExpected(_) => 406,
    }
}

/// The stable namespaced code of each error kind.
pub open spec fn spec_code(e: &Error) -> Seq<char> {
    match e {
        Error::NotFound(_) => "PGRST116"@,
        Error::BadRequest(_) => "PGRST100"@,
        Error::Unauthorized(_) => "PGRST301"@,
        Error::Forbidden(_) => "PGRST302"@,
        Error::Conflict(_) => "PGRST209"@,
        Error::Sql(_) => "PGRST200"@,
        Error::Pool(_) => "PGRST503"@,
        Error::Internal(_) => "PGRST500"@,
        Error::SingleObjectExpected(_) => "PGRST116"@,
    }
}

/// The human-readable message of each error kind.
pub open spec fn spec_message(e: &Error) -> Seq<char> {
    match e {
        Error::NotFound(m) => "Not found: "@ + m@,
        Error::BadRequest(m) => "Bad request: "@ + m@,
        Error::Unauthorized(m) => "Unauthorized: "@ + m@,
        Error::Forbidden(m) => "Forbidden: "@ + m@,
        Error::Conflict(m) => "Conflict: "@ + m@,
        Error::Sql(m) => "SQL error: "@ + m@,
        Error::Pool(m) => "Pool error: "@ + m@,
        Error::Internal(m) => "Internal error: "@ + m@,
        Error::SingleObjectExpected(n) => "Single object expected but got "@ + crate::num::dec_rep(
            *n as int,
        ) + " rows"@,
    }
}

impl Error {
    pub fn status_code(&self) -> (r: u16)
        ensures
            r as int == spec_status_code(self),
    {
        match self {
            Error::NotFound(_) => 404,
            Error::BadRequest(_) => 400,
            Error::Unauthorized(_) => 401,
            Error::Forbidden(_) => 403,
            Error::Conflict(_) => 409,
            Error::Sql(m) => sql_error_to_status(m.as_str()),
            Error::Pool(_) => 503,
            Error::Internal(_) => 500,
            Error::SingleObjectExpected(_) => 406,
        }
    }

    pub fn code(&self) -> (r: &'static str)
        ensures
            r@ == spec_code(self),
    {
        match self {
            Error::NotFound(_) => "PGRST116",
            Error::BadRequest(_) => "PGRST100",
            Error::Unauthorized(_) => "PGRST301",
            Error::Forbidden(_) => "PGRST302",
            Error::Conflict(_) => "PGRST209",
            Error::Sql(_) => "PGRST200",
            Error::Pool(_) => "PGRST503",
            Error::Internal(_) => "PGRST500",
            Error::SingleObjectExpected(_) => "PGRST116",
        }
    }

    /// Renders the message of this error.
    pub fn message(&self) -> (r: String)
        ensures
            r@ == spec_message(self),
    {
        match self {
            Error::NotFound(m) => concat_msg("Not found: ", m),
            Error::BadRequest(m) => concat_msg("Bad request: ", m),
            Error::Unauthorized(m) => concat_msg("Unauthorized: ", m),
            Error::Forbidden(m) => concat_msg("Forbidden: ", m),
            Error::Conflict(m) => concat_msg("Conflict: ", m),
            Error::Sql(m) => concat_msg("SQL error: ", m),
            Error::Pool(m) => concat_msg("Pool error: ", m),
            Error::Internal(m) => concat_msg("Internal error: ", m),
            Error::SingleObjectExpected(n) => {
                let mut s = String::new();
                s.append("Single object expected but got ");
                let count = crate::num::u64_to_string(*n as u64);
                s.append(count.as_str());
                s.append(" rows");
                s
            },
        }
    }

    /// The wire body for this error: the code, the message, and for raw
    /// database errors the driver text under `details`.
    pub fn to_api_error(&self) -> (r: ApiError)
        ensures
            r.code@ == spec_code(self),
            r.message@ == spec_message(self),
            match self {
                Error::Sql(m) => r.details matches Some(d) && d@ == m@,
                _ => r.details is None,
            },
            r.hint is None,
    {
        let code = self.code().to_owned();
        let message = self.message();
        let details = match self {
            Error::Sql(m) => Some(m.clone()),
            _ => None,
        };
        ApiError { code, message, details, hint: None }
    }
}

fn concat_msg(prefix: &str, m: &String) -> (r: String)
    ensures
        r@ == prefix@ + m@,
{
    let mut s = prefix.to_owned();
    s.append(m.as_str());
    s
}

} // verus!
