//! Business result codes: one number per outcome, doubling as HTTP status
//! (below 1000) or domain code (3000 and up).

use vstd::prelude::*;

use crate::ops::FolderError;
use crate::ts_str::{dec_digits, to_str};

verus! {

/// Every outcome the service reports.
#[derive(Clone, Copy, Debug, PartialEq, Eq, Structural)]
pub enum Code {
    /// The request succeeded.
    Success,
    /// The client is not authenticated.
    Unauthorized,
    /// The client may not access the content.
    Forbidden,
    /// The resource does not exist.
    NotFound,
    /// The method is not allowed on this route.
    MethodNotAllowed,
    /// The client sent too many requests.
    TooManyRequests,
    /// The token or application key is invalid.
    IdentifyError,
    /// The authentication has expired.
    IdentifyExpired,
    /// The request signature does not verify.
    SignError,
    /// The server could not complete the request.
    InternalServerError,
    /// An uploaded file exceeds the limit.
    FileTooLarge,
    /// A required header is missing.
    MissingHeader,
    /// A required parameter is missing.
    MissingParam,
    /// A parameter is malformed.
    IllegalParam,
    /// The designated parent folder does not exist.
    FolderParentNotExist,
    /// The folder does not exist.
    FolderNotExist,
    /// The folder still has children.
    FolderNotEmpty,
    /// A folder cannot be moved onto itself.
    FolderMoveToSelf,
    /// The application's folder does not exist.
    AppParentFolderNotExist,
    /// The application does not exist.
    AppNotExist,
    /// The application has no draft.
    AppDraftNotExist,
    /// The current workspace cannot be deleted.
    WorkspaceCurrentCannotDelete,
    /// No workspace is selected.
    WorkspaceNotSelected,
}

/// The number of each code.
pub open spec fn code_i32(c: Code) -> int {
    match c {
        Code::Success => 200,
        Code::Unauthorized => 401,
        Code::Forbidden => 403,
        Code::NotFound => 404,
        Code::MethodNotAllowed => 405,
        Code::TooManyRequests => 429,
        Code::IdentifyError => 430,
        Code::IdentifyExpired => 431,
        Code::SignError => 432,
        Code::InternalServerError => 500,
        Code::FileTooLarge => 800,
        Code::MissingHeader => 900,
        Code::MissingParam => 901,
        Code::IllegalParam => 902,
        Code::FolderParentNotExist => 3101,
        Code::FolderNotExist => 3102,
        Code::FolderNotEmpty => 3103,
        Code::FolderMoveToSelf => 3104,
        Code::AppParentFolderNotExist => 3201,
        Code::AppNotExist => 3202,
        Code::AppDraftNotExist => 3203,
        Code::WorkspaceCurrentCannotDelete => 3301,
        Code::WorkspaceNotSelected => 3302,
    }
}

impl Code {
    /// The code's number.
    pub fn as_i32(&self) -> (r: i32)
        ensures
            r == code_i32(*self),
    {
        match self {
            Code::Success => 200,
            Code::Unauthorized => 401,
            Code::Forbidden => 403,
            Code::NotFound => 404,
            Code::MethodNotAllowed => 405,
            Code::TooManyRequests => 429,
            Code::IdentifyError => 430,
            Code::IdentifyExpired => 431,
            Code::SignError => 432,
            Code::InternalServerError => 500,
            Code::FileTooLarge => 800,
            Code::MissingHeader => 900,
            Code::MissingParam => 901,
            Code::IllegalParam => 902,
            Code::FolderParentNotExist => 3101,
            Code::FolderNotExist => 3102,
            Code::FolderNotEmpty => 3103,
            Code::FolderMoveToSelf => 3104,
            Code::AppParentFolderNotExist => 3201,
            Code::AppNotExist => 3202,
            Code::AppDraftNotExist => 3203,
            Code::WorkspaceCurrentCannotDelete => 3301,
            Code::WorkspaceNotSelected => 3302,
        }
    }

    /// The code's number in decimal text, e.g. for message lookup keys.
    pub fn code_str(&self) -> (r: String)
        ensures
            r@ == dec_digits(code_i32(*self) as nat),
    {
        to_str(self.as_i32() as u64)
    }
}

/// A recoverable business failure: the code to report plus message
/// arguments.
pub struct BizError {
    pub code: i32,
    pub args: Vec<(String, String)>,
}

impl FolderError {
    /// The business code each folder failure is reported under.
    pub fn code(&self) -> (r: Code)
        ensures
            r == folder_error_code(*self),
    {
        match self {
            FolderError::Validation => Code::IllegalParam,
            FolderError::NotFound => Code::FolderNotExist,
            FolderError::ParentNotFound => Code::FolderParentNotExist,
            FolderError::NotEmpty => Code::FolderNotEmpty,
            FolderError::SelfMove => Code::FolderMoveToSelf,
        }
    }
}

pub open spec fn folder_error_code(e: FolderError) -> Code {
    match e {
        FolderError::Validation => Code::IllegalParam,
        FolderError::NotFound => Code::FolderNotExist,
        FolderError::ParentNotFound => Code::FolderParentNotExist,
        FolderError::NotEmpty => Code::FolderNotEmpty,
        FolderError::SelfMove => Code::FolderMoveToSelf,
    }
}

} // verus!
