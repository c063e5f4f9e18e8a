use vstd::prelude::*;

verus! {

/// Every failure the download engine reports to its caller.
///
/// Transport failures before any response arrives are `Unreachable`; HTTP
/// status codes map one-to-one onto the dedicated variants, with `Unknown`
/// carrying any status that has no variant of its own; every local file
/// operation that fails is `FileError`; `InvalidArgs` and `InvalidThreadCount`
/// reject bad caller input before any network work starts.
#[derive(Clone, Copy, Debug, PartialEq, Eq, Structural)]
pub enum RawstErr {
    InitilisationError,
    InvalidArgs,
    InvalidThreadCount,
    HttpError,
    BadRequest,
    Unauthorized,
    Forbidden,
    NotFound,
    InternalServerError,
    Unreachable,
    Unknown(u16),
    FileError,
}

impl RawstErr {
    /// The human-readable message for this failure, printed before the
    /// process exits non-zero.
    pub fn message(&self) -> String {
        match self {
            RawstErr::InitilisationError => "Initialisation failed.".to_owned(),
            RawstErr::InvalidArgs => "Invalid Arguments or No Arguments".to_owned(),
            RawstErr::InvalidThreadCount => "Invalid thread count: must be between 1 and 8".to_owned(),
            RawstErr::HttpError => "HTTP Error: the transfer failed".to_owned(),
            RawstErr::BadRequest => "Bad Request: The server cannot or will not process the request due to something that is perceived to be a client error.".to_owned(),
            RawstErr::Unauthorized => "Unauthorized: The request has not been applied because it lacks valid authentication credentials for the target resource.".to_owned(),
            RawstErr::Forbidden => "Forbidden: The server understood the request, but it refuses to authorize it.".to_owned(),
            RawstErr::NotFound => "Not Found: The server has not found anything matching the Request-URI.".to_owned(),
            RawstErr::InternalServerError => "Internal Server Error: The server encountered an unexpected condition which prevented it from fulfilling the request.".to_owned(),
            RawstErr::Unreachable => "Unreachable: The request was not able to reach the server".to_owned(),
            RawstErr::Unknown(code) => {
                let mut s = "Unknown Error: status ".to_owned();
                let digits = crate::utils::u64_to_string(*code as u64);
                s.append(digits.as_str());
                s
            },
            RawstErr::FileError => "File Error: a local file operation failed".to_owned(),
        }
    }
}

/// The error owed for a capability-probe response status: only 200 is
/// accepted, and the listed statuses map to their dedicated variants.
pub open spec fn spec_probe_status_error(status: u16) -> Option<RawstErr> {
    if status == 200 {
        None
    } else if status == 400 {
        Some(RawstErr::BadRequest)
    } else if status == 401 {
        Some(RawstErr::Unauthorized)
    } else if status == 403 {
        Some(RawstErr::Forbidden)
    } else if status == 404 {
        Some(RawstErr::NotFound)
    } else if status == 500 {
        Some(RawstErr::InternalServerError)
    } else {
        Some(RawstErr::Unknown(status))
    }
}

/// The error owed for a range-fetch response status: every 2xx status is a
/// success, and any other status is terminal for the chunk that saw it.
pub open spec fn spec_fetch_status_error(status: u16) -> Option<RawstErr> {
    if 200 <= status < 300 {
        None
    } else if status == 400 {
        Some(RawstErr::BadRequest)
    } else if status == 401 {
        Some(RawstErr::Unauthorized)
    } else if status == 403 {
        Some(RawstErr::Forbidden)
    } else if status == 404 {
        Some(RawstErr::NotFound)
    } else if status == 500 {
        Some(RawstErr::InternalServerError)
    } else {
        Some(RawstErr::Unknown(status))
    }
}

/// Classifies the status code of a `HEAD` capability probe.
pub fn probe_status_outcome(status: u16) -> (r: Result<(), RawstErr>)
    ensures
        r is Ok <==> status == 200,
        r is Err ==> r->Err_0 == spec_probe_status_error(status)->0,
{
    match status {
        200 => Ok(()),
        400 => Err(RawstErr::BadRequest),
        401 => Err(RawstErr::Unauthorized),
        403 => Err(RawstErr::Forbidden),
        404 => Err(RawstErr::NotFound),
        500 => Err(RawstErr::InternalServerError),
        _ => Err(RawstErr::Unknown(status)),
    }
}

/// Classifies the status code of a ranged or whole-file `GET`.
pub fn fetch_status_outcome(status: u16) -> (r: Result<(), RawstErr>)
    ensures
        r is Ok <==> 200 <= status < 300,
        r is Err ==> r->Err_0 == spec_fetch_status_error(status)->0,
{
    if 200 <= status && status < 300 {
        Ok(())
    } else {
        match status {
            400 => Err(RawstErr::BadRequest),
            401 => Err(RawstErr::Unauthorized),
            403 => Err(RawstErr::Forbidden),
            404 => Err(RawstErr::NotFound),
            500 => Err(RawstErr::InternalServerError),
            _ => Err(RawstErr::Unknown(status)),
        }
    }
}

} // verus!
