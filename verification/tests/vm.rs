use picana::vm::instance::exception::VmErrorType;

#[test]
fn first_positive_check_decides() {
    assert_eq!(VmErrorType::from_checks(true, true, true, true), VmErrorType::VmApiError);
    assert_eq!(VmErrorType::from_checks(false, true, true, true), VmErrorType::VmUnhandledException);
    assert_eq!(VmErrorType::from_checks(false, false, true, true), VmErrorType::VmCompilationError);
    assert_eq!(VmErrorType::from_checks(false, false, false, true), VmErrorType::VmFatalError);
    assert_eq!(VmErrorType::from_checks(false, false, false, false), VmErrorType::VmNullPointer);
}

#[test]
fn descriptions() {
    assert_eq!(VmErrorType::VmApiError.description(), "API Error");
    assert_eq!(VmErrorType::VmUnhandledException.description(), "Unhandled Exception");
    assert_eq!(VmErrorType::VmCompilationError.description(), "Compilation Error");
    assert_eq!(VmErrorType::VmFatalError.description(), "Fatal Error");
    assert_eq!(VmErrorType::VmNullPointer.description(), "NUll Error?");
}
