use inkflow::ffi::{
    is_expired_log, map_error_status, outcome_status, submission_precheck, FileOutputConfig,
    InkFlowStatus, LogOutput, LoggingConfig, Rotation,
};
use inkflow::error::AppError;

#[test]
fn default_config_includes_file_output() {
    let config = LoggingConfig::default();
    assert_eq!(config.outputs.len(), 1);
    match &config.outputs[0] {
        LogOutput::File(file) => {
            assert_eq!(file.rotation, Rotation::Daily);
            assert!(file.level_override.is_none());
        },
    }
}

#[test]
fn file_output_default_filename() {
    let file = FileOutputConfig::default();
    assert_eq!(file.filename, "inkflow.log");
}

#[test]
fn default_level_is_info() {
    assert_eq!(LoggingConfig::default().default_level, "info");
}

#[test]
fn expired_logs_are_old_files_with_the_log_name() {
    assert!(is_expired_log(true, Some("inkflow.log.2020-01-01"), "inkflow.log", Some(true)));
    assert!(!is_expired_log(true, Some("inkflow.log.2020-01-02"), "inkflow.log", Some(false)));
    assert!(!is_expired_log(false, Some("inkflow.log.2020-01-01"), "inkflow.log", Some(true)));
    assert!(!is_expired_log(true, Some("other.log"), "inkflow.log", Some(true)));
    assert!(!is_expired_log(true, None, "inkflow.log", Some(true)));
    assert!(!is_expired_log(true, Some("inkflow.log"), "inkflow.log", None));
}

#[test]
fn status_codes_follow_declaration_order() {
    assert_eq!(InkFlowStatus::Success.code(), 0);
    assert_eq!(InkFlowStatus::Null.code(), 1);
    assert_eq!(InkFlowStatus::InvalidArgument.code(), 2);
    assert_eq!(InkFlowStatus::InternalError.code(), 3);
}

#[test]
fn caller_errors_map_to_invalid_argument() {
    assert_eq!(
        map_error_status(&AppError::new("audio_invalid", "x")),
        InkFlowStatus::InvalidArgument
    );
    assert_eq!(
        map_error_status(&AppError::new("settings_invalid", "x")),
        InkFlowStatus::InvalidArgument
    );
    assert_eq!(
        map_error_status(&AppError::new("stt_task_failed", "x")),
        InkFlowStatus::InternalError
    );
    assert_eq!(outcome_status(&Ok(())), InkFlowStatus::Success);
    assert_eq!(
        outcome_status(&Err(AppError::new("audio_invalid", "x"))),
        InkFlowStatus::InvalidArgument
    );
}

#[test]
fn submission_precheck_orders_its_checks() {
    assert_eq!(submission_precheck(false, 0, false), Some(InkFlowStatus::Null));
    assert_eq!(submission_precheck(true, 0, false), Some(InkFlowStatus::Success));
    assert_eq!(submission_precheck(true, 10, false), Some(InkFlowStatus::InvalidArgument));
    assert_eq!(submission_precheck(true, 10, true), None);
}
