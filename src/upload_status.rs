//! The terminal outcome of processing one file.
use vstd::prelude::*;
use crate::text::{decimal_chars, decimal_string, string_of};

verus! {

/// The HTTP status that the upload endpoint answers a successful upload with.
pub const CREATED: u16 = 201;

#[derive(Debug, PartialEq, Eq, Structural, Clone, Copy)]
pub enum UploadStatus {
    /// Already known to the remote catalog.
    Skipped,
    /// The upload was answered with another status than 201, or not at all.
    Failed(Option<u16>),
    /// The integrity check rejected the file.
    Corrupt,
    /// The upload was answered with 201.
    Success,
}

/// The outcome of an upload that was answered with `status`, or not answered.
pub open spec fn outcome_of(status: Option<u16>) -> UploadStatus {
    match status {
        Some(code) => if code == CREATED {
            UploadStatus::Success
        } else {
            UploadStatus::Failed(Some(code))
        },
        None => UploadStatus::Failed(None),
    }
}

/// The label under which an outcome is shown.
pub open spec fn label_of(s: UploadStatus) -> Seq<char> {
    match s {
        UploadStatus::Skipped => "SKIPPED"@,
        UploadStatus::Failed(Some(code)) => decimal_chars(code as nat),
        UploadStatus::Failed(None) => "NO RESPONSE"@,
        UploadStatus::Corrupt => "CORRUPTED"@,
        UploadStatus::Success => "SUCCESS"@,
    }
}

impl UploadStatus {
    /// The outcome of an upload: success exactly on status 201; any other
    /// status, or no response at all, is a failure.
    pub fn from_response(status: Option<u16>) -> (r: UploadStatus)
        ensures
            r == outcome_of(status),
    {
        match status {
            Some(code) => if code == CREATED {
                UploadStatus::Success
            } else {
                UploadStatus::Failed(Some(code))
            },
            None => UploadStatus::Failed(None),
        }
    }

    /// The label under which the outcome is shown; a failure shows its status code.
    pub fn get_str(self) -> (r: String)
        ensures
            r@ == label_of(self),
    {
        match self {
            UploadStatus::Skipped => String::from_str("SKIPPED"),
            UploadStatus::Failed(Some(code)) => string_of(&decimal_string(code as u64)),
            UploadStatus::Failed(None) => String::from_str("NO RESPONSE"),
            UploadStatus::Corrupt => String::from_str("CORRUPTED"),
            UploadStatus::Success => String::from_str("SUCCESS"),
        }
    }

    pub fn is_failed(&self) -> (r: bool)
        ensures
            r == (*self is Failed),
    {
        match self {
            UploadStatus::Failed(_) => true,
            _ => false,
        }
    }
}

} // verus!
