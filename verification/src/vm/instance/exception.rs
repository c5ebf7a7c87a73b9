//! The kinds of error a Dart VM handle can carry.

use vstd::prelude::*;

verus! {

/// The kind of error a VM handle carries.
#[derive(Debug, Clone, Copy, PartialEq, Eq, Structural)]
pub enum VmErrorType {
    VmApiError,
    VmUnhandledException,
    VmCompilationError,
    VmFatalError,
    VmNullPointer,
}

impl VmErrorType {
    /// The kind of an error handle from the VM's answers to "is this an
    /// API error / unhandled exception / compilation error / fatal
    /// error?", asked in that order; the first yes decides, and a handle
    /// that is none of them is taken for a null pointer.
    pub fn from_checks(
        is_api_error: bool,
        is_unhandled_exception: bool,
        is_compilation_error: bool,
        is_fatal_error: bool,
    ) -> (res: VmErrorType)
        ensures
            res == (if is_api_error {
                VmErrorType::VmApiError
            } else if is_unhandled_exception {
                VmErrorType::VmUnhandledException
            } else if is_compilation_error {
                VmErrorType::VmCompilationError
            } else if is_fatal_error {
                VmErrorType::VmFatalError
            } else {
                VmErrorType::VmNullPointer
            }),
    {
        if is_api_error {
            VmErrorType::VmApiError
        } else if is_unhandled_exception {
            VmErrorType::VmUnhandledException
        } else if is_compilation_error {
            VmErrorType::VmCompilationError
        } else if is_fatal_error {
            VmErrorType::VmFatalError
        } else {
            VmErrorType::VmNullPointer
        }
    }

    /// A short description of the kind of error.
    pub fn description(&self) -> (res: &'static str)
        ensures
            res@ == match *self {
                VmErrorType::VmApiError => "API Error"@,
                VmErrorType::VmUnhandledException => "Unhandled Exception"@,
                VmErrorType::VmCompilationError => "Compilation Error"@,
                VmErrorType::VmFatalError => "Fatal Error"@,
                VmErrorType::VmNullPointer => "NUll Error?"@,
            },
    {
        match self {
            VmErrorType::VmApiError => "API Error",
            VmErrorType::VmUnhandledException => "Unhandled Exception",
            VmErrorType::VmCompilationError => "Compilation Error",
            VmErrorType::VmFatalError => "Fatal Error",
            VmErrorType::VmNullPointer => "NUll Error?",
        }
    }
}

} // verus!
