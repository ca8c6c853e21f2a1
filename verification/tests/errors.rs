use uiautomation::errors::UIError;

#[test]
fn failure_code_is_a_provider_failure() {
    assert_eq!(UIError::from_hresult(-2147467259), UIError::Provider(-2147467259));
    assert_eq!(UIError::from_hresult(-1), UIError::Provider(-1));
    assert_eq!(UIError::from_hresult(i32::MIN), UIError::Provider(i32::MIN));
}

#[test]
fn success_code_is_an_absent_element() {
    assert_eq!(UIError::from_hresult(0), UIError::NoSuchElement);
    assert_eq!(UIError::from_hresult(1), UIError::NoSuchElement);
    assert_eq!(UIError::from_hresult(i32::MAX), UIError::NoSuchElement);
}

#[test]
fn windows_error_is_classified_by_its_code() {
    let failure = windows::core::Error::from_hresult(windows::core::HRESULT(-2147467259));
    assert_eq!(UIError::from_windows(&failure), UIError::Provider(-2147467259));
    let access_denied = windows::core::Error::from_hresult(windows::core::HRESULT(-2147024891));
    assert_eq!(UIError::from_windows(&access_denied), UIError::Provider(-2147024891));
}

#[test]
fn empty_windows_error_is_an_absent_element() {
    assert_eq!(UIError::from_windows(&windows::core::Error::empty()), UIError::NoSuchElement);
}

#[test]
fn only_absence_is_no_failure() {
    assert!(!UIError::NoSuchElement.is_failure());
    assert!(UIError::NotFound.is_failure());
    assert!(UIError::Provider(-1).is_failure());
}
