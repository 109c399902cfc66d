//! The TFTP error code carried by an error packet.

use vstd::prelude::*;

use crate::DecodeError;

verus! {

/// The eight error codes of RFC 1350, wire values 0 through 7.
#[derive(Clone, Copy, Debug, PartialEq, Eq, Structural)]
pub enum ErrorCode {
    NotDefined,
    FileNotFound,
    AccessViolation,
    DiskFull,
    IllegalOperation,
    UnknownTid,
    FileAlreadyExists,
    NoSuchUser,
}

/// The 16-bit wire value of an error code.
pub open spec fn error_code_value(e: ErrorCode) -> u16 {
    match e {
        ErrorCode::NotDefined => 0,
        ErrorCode::FileNotFound => 1,
        ErrorCode::AccessViolation => 2,
        ErrorCode::DiskFull => 3,
        ErrorCode::IllegalOperation => 4,
        ErrorCode::UnknownTid => 5,
        ErrorCode::FileAlreadyExists => 6,
        ErrorCode::NoSuchUser => 7,
    }
}

/// The error code a 16-bit wire value stands for, if any.
pub open spec fn error_code_of(v: u16) -> Option<ErrorCode> {
    if v == 0 {
        Some(ErrorCode::NotDefined)
    } else if v == 1 {
        Some(ErrorCode::FileNotFound)
    } else if v == 2 {
        Some(ErrorCode::AccessViolation)
    } else if v == 3 {
        Some(ErrorCode::DiskFull)
    } else if v == 4 {
        Some(ErrorCode::IllegalOperation)
    } else if v == 5 {
        Some(ErrorCode::UnknownTid)
    } else if v == 6 {
        Some(ErrorCode::FileAlreadyExists)
    } else if v == 7 {
        Some(ErrorCode::NoSuchUser)
    } else {
        None
    }
}

impl ErrorCode {
    /// The wire value of this error code.
    pub fn to_u16(self) -> (r: u16)
        ensures
            r == error_code_value(self),
    {
        match self {
            ErrorCode::NotDefined => 0,
            ErrorCode::FileNotFound => 1,
            ErrorCode::AccessViolation => 2,
            ErrorCode::DiskFull => 3,
            ErrorCode::IllegalOperation => 4,
            ErrorCode::UnknownTid => 5,
            ErrorCode::FileAlreadyExists => 6,
            ErrorCode::NoSuchUser => 7,
        }
    }

    /// Decode a 16-bit wire value; every value outside 0..=7 is invalid.
    pub fn from_u16(v: u16) -> (r: Result<ErrorCode, DecodeError>)
        ensures
            r matches Ok(e) ==> error_code_of(v) == Some(e),
            r is Ok <==> error_code_of(v) is Some,
            r is Err ==> r == Err::<ErrorCode, DecodeError>(DecodeError::InvalidInput),
    {
        if v == 0 {
            Ok(ErrorCode::NotDefined)
        } else if v == 1 {
            Ok(ErrorCode::FileNotFound)
        } else if v == 2 {
            Ok(ErrorCode::AccessViolation)
        } else if v == 3 {
            Ok(ErrorCode::DiskFull)
        } else if v == 4 {
            Ok(ErrorCode::IllegalOperation)
        } else if v == 5 {
            Ok(ErrorCode::UnknownTid)
        } else if v == 6 {
            Ok(ErrorCode::FileAlreadyExists)
        } else if v == 7 {
            Ok(ErrorCode::NoSuchUser)
        } else {
            Err(DecodeError::InvalidInput)
        }
    }
}

/// Law: encoding an error code and decoding the value gives the code back.
pub proof fn lemma_error_code_round_trip(e: ErrorCode)
    ensures
        error_code_of(error_code_value(e)) == Some(e),
{
}

/// Law: a 16-bit value decodes to an error code exactly when it is below 8.
pub proof fn lemma_error_code_valid_range(v: u16)
    ensures
        error_code_of(v) is Some <==> v <= 7,
{
}

} // verus!
