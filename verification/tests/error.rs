use waveform_display::error::{exit_code, VisualizerError};

#[test]
fn fatal_errors_are_the_missing_device_and_the_failed_presentation() {
    assert!(VisualizerError::DeviceUnavailable.is_fatal());
    assert!(VisualizerError::PresentationFailure.is_fatal());
    assert!(!VisualizerError::StreamRuntimeError.is_fatal());
    assert!(!VisualizerError::InvalidInput.is_fatal());
}

#[test]
fn exit_code_is_zero_unless_the_error_is_fatal() {
    assert_eq!(exit_code(Ok(())), 0);
    assert_eq!(exit_code(Err(VisualizerError::DeviceUnavailable)), 1);
    assert_eq!(exit_code(Err(VisualizerError::PresentationFailure)), 1);
    assert_eq!(exit_code(Err(VisualizerError::StreamRuntimeError)), 0);
    assert_eq!(exit_code(Err(VisualizerError::InvalidInput)), 0);
}

#[test]
fn errors_compare_and_copy() {
    let e = VisualizerError::InvalidInput;
    let f = e;
    assert_eq!(e, f);
    assert_ne!(e, VisualizerError::StreamRuntimeError);
}
