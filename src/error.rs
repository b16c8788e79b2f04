//! Caller-visible failures: a stable category with a readable reason.

use vstd::prelude::*;
use vstd::string::StringExecFns;

verus! {

/// Every rejection the write path can report.
#[derive(Debug, Clone, PartialEq, Eq)]
pub enum AppError {
    NotFound(String),
    BadRequest(String),
    Unauthorized(String),
    Forbidden(String),
    Conflict(String),
    RateLimited,
    /// The store failed; the text is for the log, never for the caller.
    Database(String),
    /// Something else failed; the text is for the log, never for the caller.
    Internal(String),
}

pub open spec fn digit_char(d: nat) -> char {
    if d == 0 { '0' }
    else if d == 1 { '1' }
    else if d == 2 { '2' }
    else if d == 3 { '3' }
    else if d == 4 { '4' }
    else if d == 5 { '5' }
    else if d == 6 { '6' }
    else if d == 7 { '7' }
    else if d == 8 { '8' }
    else { '9' }
}

/// Decimal digits of a natural number, most significant first.
pub open spec fn decimal_of(n: nat) -> Seq<char>
    decreases n,
{
    if n < 10 {
        seq![digit_char(n)]
    } else {
        decimal_of(n / 10) + seq![digit_char(n % 10)]
    }
}

/// Decimal text of an integer, with a leading `-` when negative.
pub open spec fn signed_decimal_of(n: int) -> Seq<char> {
    if n < 0 {
        seq!['-'] + decimal_of((-n) as nat)
    } else {
        decimal_of(n as nat)
    }
}

fn digit_str(d: u64) -> (r: &'static str)
    requires
        d < 10,
    ensures
        r@ == seq![digit_char(d as nat)],
{
    proof {
        reveal_strlit("0");
        reveal_strlit("1");
        reveal_strlit("2");
        reveal_strlit("3");
        reveal_strlit("4");
        reveal_strlit("5");
        reveal_strlit("6");
        reveal_strlit("7");
        reveal_strlit("8");
        reveal_strlit("9");
    }
    if d == 0 { "0" }
    else if d == 1 { "1" }
    else if d == 2 { "2" }
    else if d == 3 { "3" }
    else if d == 4 { "4" }
    else if d == 5 { "5" }
    else if d == 6 { "6" }
    else if d == 7 { "7" }
    else if d == 8 { "8" }
    else {
        assert(seq![digit_char(d as nat)] =~= "9"@);
        "9"
    }
}

/// Decimal text of `n`.
pub fn decimal(n: u64) -> (r: String)
    ensures
        r@ == decimal_of(n as nat),
    decreases n,
{
    if n < 10 {
        String::from_str(digit_str(n))
    } else {
        let mut s = decimal(n / 10);
        s.append(digit_str(n % 10));
        s
    }
}

/// Decimal text of `n`, signed.
pub fn signed_decimal(n: i64) -> (r: String)
    ensures
        r@ == signed_decimal_of(n as int),
{
    if n < 0 {
        let magnitude = (-(n as i128)) as u64;
        let mut s = String::from_str("-");
        proof {
            reveal_strlit("-");
        }
        s.append(decimal(magnitude).as_str());
        s
    } else {
        decimal(n as u64)
    }
}

pub open spec fn status_of(e: AppError) -> u16 {
    match e {
        AppError::NotFound(_) => 404,
        AppError::BadRequest(_) => 400,
        AppError::Unauthorized(_) => 401,
        AppError::Forbidden(_) => 403,
        AppError::Conflict(_) => 409,
        AppError::RateLimited => 429,
        AppError::Database(_) => 500,
        AppError::Internal(_) => 500,
    }
}

pub open spec fn code_of(e: AppError) -> Seq<char> {
    match e {
        AppError::NotFound(_) => "not_found"@,
        AppError::BadRequest(_) => "bad_request"@,
        AppError::Unauthorized(_) => "unauthorized"@,
        AppError::Forbidden(_) => "forbidden"@,
        AppError::Conflict(_) => "conflict"@,
        AppError::RateLimited => "rate_limited"@,
        AppError::Database(_) => "database_error"@,
        AppError::Internal(_) => "internal_error"@,
    }
}

/// What the caller is told: the reason for a rejection, a fixed text for a
/// failure inside the service.
pub open spec fn public_message_of(e: AppError) -> Seq<char> {
    match e {
        AppError::NotFound(m) => m@,
        AppError::BadRequest(m) => m@,
        AppError::Unauthorized(m) => m@,
        AppError::Forbidden(m) => m@,
        AppError::Conflict(m) => m@,
        AppError::RateLimited => "Rate limit exceeded"@,
        AppError::Database(_) => "Database error"@,
        AppError::Internal(_) => "Internal server error"@,
    }
}

impl AppError {
    /// HTTP status of the rejection.
    pub fn status(&self) -> (r: u16)
        ensures
            r == status_of(*self),
    {
        match self {
            AppError::NotFound(_) => 404,
            AppError::BadRequest(_) => 400,
            AppError::Unauthorized(_) => 401,
            AppError::Forbidden(_) => 403,
            AppError::Conflict(_) => 409,
            AppError::RateLimited => 429,
            AppError::Database(_) => 500,
            AppError::Internal(_) => 500,
        }
    }

    /// Stable machine-readable category.
    pub fn code(&self) -> (r: &'static str)
        ensures
            r@ == code_of(*self),
    {
        match self {
            AppError::NotFound(_) => "not_found",
            AppError::BadRequest(_) => "bad_request",
            AppError::Unauthorized(_) => "unauthorized",
            AppError::Forbidden(_) => "forbidden",
            AppError::Conflict(_) => "conflict",
            AppError::RateLimited => "rate_limited",
            AppError::Database(_) => "database_error",
            AppError::Internal(_) => "internal_error",
        }
    }

    /// Reason shown to the caller.
    pub fn public_message(&self) -> (r: String)
        ensures
            r@ == public_message_of(*self),
    {
        match self {
            AppError::NotFound(m) => m.clone(),
            AppError::BadRequest(m) => m.clone(),
            AppError::Unauthorized(m) => m.clone(),
            AppError::Forbidden(m) => m.clone(),
            AppError::Conflict(m) => m.clone(),
            AppError::RateLimited => String::from_str("Rate limit exceeded"),
            AppError::Database(_) => String::from_str("Database error"),
            AppError::Internal(_) => String::from_str("Internal server error"),
        }
    }
}


/// `e` is a bad-request rejection with reason `text`.
pub open spec fn is_bad_request(e: AppError, text: Seq<char>) -> bool {
    match e {
        AppError::BadRequest(m) => m@ == text,
        _ => false,
    }
}

/// `e` is a forbidden rejection with reason `text`.
pub open spec fn is_forbidden(e: AppError, text: Seq<char>) -> bool {
    match e {
        AppError::Forbidden(m) => m@ == text,
        _ => false,
    }
}

/// `e` is a conflict with reason `text`.
pub open spec fn is_conflict(e: AppError, text: Seq<char>) -> bool {
    match e {
        AppError::Conflict(m) => m@ == text,
        _ => false,
    }
}


/// `e` is an unauthorized rejection with reason `text`.
pub open spec fn is_unauthorized(e: AppError, text: Seq<char>) -> bool {
    match e {
        AppError::Unauthorized(m) => m@ == text,
        _ => false,
    }
}

} // verus!
