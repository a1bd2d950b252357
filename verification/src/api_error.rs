use vstd::prelude::*;

verus! {

/// An error answered to an HTTP client: a status code and a message.
#[derive(Debug)]
pub struct ApiError {
    pub status: u16,
    pub message: String,
}

/// True when `e` carries exactly this status and message.
pub open spec fn is_api_error(e: ApiError, status: u16, message: Seq<char>) -> bool {
    e.status == status && e.message@ == message
}

/// The status that an HTTP response can carry for `status`: the code itself
/// when it is a valid three-digit status code, else 500 (internal server error).
pub open spec fn response_status_spec(status: u16) -> u16 {
    if 100 <= status && status < 1000 {
        status
    } else {
        500
    }
}

/// `http::StatusCode::from_u16` (through actix-web), as a plain number.
/// The outside function accepts exactly the codes in `100..1000` and keeps
/// their value; it refuses every other code.
#[verifier::external_body]
fn status_code_from_u16(code: u16) -> (res: Option<u16>)
    ensures
        res == (if 100 <= code && code < 1000 { Some(code) } else { None::<u16> }),
{
    match actix_web::http::StatusCode::from_u16(code) {
        Ok(status) => Some(status.as_u16()),
        Err(_) => None,
    }
}

impl ApiError {
    pub fn new(status: u16, message: &str) -> (res: ApiError)
        ensures
            is_api_error(res, status, message@),
    {
        ApiError { status, message: message.to_owned() }
    }

    /// The text shown for this error: its message.
    pub fn to_string(&self) -> (res: String)
        ensures
            res@ == self.message@,
    {
        self.message.clone()
    }

    /// The error answered for a date that does not parse.
    pub fn from_parse_error(_err: chrono::ParseError) -> (res: ApiError)
        ensures
            is_api_error(res, 400, "Invalid time format"@),
    {
        ApiError::new(400, "Invalid time format")
    }

    /// The status code of the HTTP response that reports this error.
    pub fn status_code(&self) -> (res: u16)
        ensures
            res == response_status_spec(self.status),
            100 <= res < 1000,
    {
        match status_code_from_u16(self.status) {
            Some(code) => code,
            None => 500,
        }
    }
}

/// `chrono::ParseError`, the error of a date that does not parse.
#[verifier::external_type_specification]
#[verifier::external_body]
pub struct ExParseError(chrono::ParseError);

} // verus!
