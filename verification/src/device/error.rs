//! Errors of device operations.
use vstd::prelude::*;

verus! {

/// Why a device operation failed.
#[derive(Debug)]
pub enum DeviceError {
    /// The driver's error code.
    Driver(u32),
    /// A misuse or a broken promise, in words.
    Internal(String),
}

/// The contents of a device error.
#[verifier::ext_equal]
pub enum DeviceErrorV {
    Driver(u32),
    Internal(Seq<char>),
}

impl View for DeviceError {
    type V = DeviceErrorV;

    open spec fn view(&self) -> DeviceErrorV {
        match self {
            DeviceError::Driver(code) => DeviceErrorV::Driver(*code),
            DeviceError::Internal(text) => DeviceErrorV::Internal(text@),
        }
    }
}

impl DeviceError {
    /// A copy of the error.
    pub fn duplicate(&self) -> (e: DeviceError)
        ensures
            e@ == self@,
    {
        match self {
            DeviceError::Driver(code) => DeviceError::Driver(*code),
            DeviceError::Internal(text) => DeviceError::Internal(text.clone()),
        }
    }
}

/// An error in words.
pub fn internal(text: &str) -> (e: DeviceError)
    ensures
        e@ == DeviceErrorV::Internal(text@),
{
    DeviceError::Internal(text.to_owned())
}

} // verus!
