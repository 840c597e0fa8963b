use inkflow::sherpa::{library_candidate_order, load_failure, SherpaError};

#[test]
fn load_failure_lists_what_was_tried() {
    let err = load_failure(&["\"/a/lib.so\": not found.".to_string()]);
    assert_eq!(
        err.message,
        "Failed to load the sherpa-onnx C API dynamic library.\nTried:\n- \"/a/lib.so\": not found.\nHint: Run `cargo make setup-macos` to build the native libraries, or set INKFLOW_SHERPA_ONNX_DYLIB to an absolute path."
    );
}

#[test]
fn load_failure_without_candidates() {
    let err: SherpaError = load_failure(&[]);
    assert!(err.message.starts_with("Failed to load the sherpa-onnx C API dynamic library.\nHint:"));
}

#[test]
fn library_candidates_come_in_order() {
    assert_eq!(
        library_candidate_order(Some("/env/lib.so"), None, Some("/bin/lib.so"), Some("/p/lib/lib.so"), "lib.so"),
        vec!["/env/lib.so", "/bin/lib.so", "/p/lib/lib.so", "lib.so"]
    );
    assert_eq!(library_candidate_order(None, Some("/F/lib.so"), None, None, "lib.so"), vec!["/F/lib.so", "lib.so"]);
    assert_eq!(library_candidate_order::<&str>(None, None, None, None, "lib.so"), vec!["lib.so"]);
}
