use subscan::status::{LogLevel, ModuleErrorKind, SkipReason, SubscanModuleStatus};

#[test]
fn with_reason_test() {
    assert_eq!(SubscanModuleStatus::Started.with_reason(), "[STARTED]");
    assert_eq!(SubscanModuleStatus::Finished.with_reason(), "[FINISHED]");
    assert_eq!(
        SubscanModuleStatus::Failed(ModuleErrorKind::Custom("foo".into())).with_reason(),
        "[foo FAILED]"
    );
    assert_eq!(
        SubscanModuleStatus::FailedWithResult.with_reason(),
        "[failed with result FAILED]"
    );
    assert_eq!(
        SubscanModuleStatus::Skipped(SkipReason::AuthenticationNotProvided).with_reason(),
        "[auth not provided SKIPPED]"
    );
    assert_eq!(
        SubscanModuleStatus::Skipped(SkipReason::SkippedByUser).with_reason(),
        "[skipped by user SKIPPED]"
    );
    assert_eq!(
        SubscanModuleStatus::Failed(ModuleErrorKind::UrlParse).with_reason(),
        "[url parse error FAILED]"
    );
}

#[test]
fn status_tokens() {
    assert_eq!(SubscanModuleStatus::Started.to_string(), "STARTED");
    assert_eq!(SubscanModuleStatus::Finished.to_string(), "FINISHED");
    assert_eq!(SubscanModuleStatus::Skipped(SkipReason::SkippedByUser).to_string(), "SKIPPED");
    assert_eq!(SubscanModuleStatus::Failed(ModuleErrorKind::Http).to_string(), "FAILED");
    assert_eq!(SubscanModuleStatus::FailedWithResult.to_string(), "FAILED");
    assert_eq!(SkipReason::AuthenticationNotProvided.to_string(), "auth not provided");
    assert_eq!(ModuleErrorKind::Json.to_string(), "json parse error");
}

#[test]
fn status_conversions() {
    let from_err: SubscanModuleStatus = ModuleErrorKind::Http.into();
    assert_eq!(from_err, SubscanModuleStatus::Failed(ModuleErrorKind::Http));
    let from_reason: SubscanModuleStatus = SkipReason::SkippedByUser.into();
    assert_eq!(from_reason, SubscanModuleStatus::Skipped(SkipReason::SkippedByUser));
    let kind = ModuleErrorKind::Custom("x".into());
    assert_eq!(kind.duplicate(), kind);
}

#[test]
fn log_levels() {
    let record = SubscanModuleStatus::Finished.log("google");
    assert_eq!(record.level, LogLevel::Info);
    assert_eq!(record.module, "google");
    assert_eq!(record.message, "[FINISHED]");
    assert_eq!(SubscanModuleStatus::Skipped(SkipReason::SkippedByUser).log("x").level, LogLevel::Warn);
    assert_eq!(SubscanModuleStatus::Failed(ModuleErrorKind::Http).log("x").level, LogLevel::Error);
    assert_eq!(SubscanModuleStatus::FailedWithResult.log("x").level, LogLevel::Warn);
    assert_eq!(SubscanModuleStatus::Started.log("x").level, LogLevel::Info);
}
