//! The outcome of one module run: its status, the reason it was skipped, or
//! the kind of error that stopped it.
use vstd::prelude::*;

verus! {

/// Why a module was not run.
#[derive(Clone, Debug, PartialEq, Eq, PartialOrd, Ord)]
pub enum SkipReason {
    /// The module needs a credential and none was provided.
    AuthenticationNotProvided,
    /// The user excluded the module.
    SkippedByUser,
}

/// What stopped a module run.
#[derive(Clone, Debug, PartialEq, Eq, PartialOrd, Ord)]
pub enum ModuleErrorKind {
    /// A URL could not be parsed.
    UrlParse,
    /// The transport failed.
    Http,
    /// A response could not be parsed.
    Json,
    /// A module-specific terminal condition.
    Custom(String),
}

/// The state of one module within a scan.
#[derive(Clone, Debug, PartialEq, Eq, PartialOrd, Ord)]
pub enum SubscanModuleStatus {
    Started,
    Finished,
    Skipped(SkipReason),
    Failed(ModuleErrorKind),
    FailedWithResult,
}

/// How loud a status line is.
#[derive(Clone, Copy, Debug, PartialEq, Eq)]
pub enum LogLevel {
    Info,
    Warn,
    Error,
}

/// One status line: its level, the module it is about and the text after it.
#[derive(Clone, Debug, PartialEq, Eq)]
pub struct LogRecord {
    pub level: LogLevel,
    pub module: String,
    pub message: String,
}

pub open spec fn skip_reason_text(r: SkipReason) -> Seq<char> {
    match r {
        SkipReason::AuthenticationNotProvided => "auth not provided"@,
        SkipReason::SkippedByUser => "skipped by user"@,
    }
}

pub open spec fn error_text(e: ModuleErrorKind) -> Seq<char> {
    match e {
        ModuleErrorKind::UrlParse => "url parse error"@,
        ModuleErrorKind::Http => "http error"@,
        ModuleErrorKind::Json => "json parse error"@,
        ModuleErrorKind::Custom(msg) => msg@,
    }
}

/// The fixed token of a status, as machine-readable output shows it.
pub open spec fn status_token(s: SubscanModuleStatus) -> Seq<char> {
    match s {
        SubscanModuleStatus::Started => "STARTED"@,
        SubscanModuleStatus::Finished => "FINISHED"@,
        SubscanModuleStatus::Skipped(_) => "SKIPPED"@,
        SubscanModuleStatus::Failed(_) => "FAILED"@,
        SubscanModuleStatus::FailedWithResult => "FAILED"@,
    }
}

/// The token of a status in brackets, after the reason or error where there is one.
pub open spec fn status_with_reason(s: SubscanModuleStatus) -> Seq<char> {
    match s {
        SubscanModuleStatus::Skipped(r) => "["@ + skip_reason_text(r) + " "@ + status_token(s) + "]"@,
        SubscanModuleStatus::Failed(e) => "["@ + error_text(e) + " "@ + status_token(s) + "]"@,
        SubscanModuleStatus::FailedWithResult => "["@ + "failed with result"@ + " "@ + status_token(s)
            + "]"@,
        _ => "["@ + status_token(s) + "]"@,
    }
}

pub open spec fn status_level(s: SubscanModuleStatus) -> LogLevel {
    match s {
        SubscanModuleStatus::Started => LogLevel::Info,
        SubscanModuleStatus::Finished => LogLevel::Info,
        SubscanModuleStatus::Skipped(_) => LogLevel::Warn,
        SubscanModuleStatus::Failed(_) => LogLevel::Error,
        SubscanModuleStatus::FailedWithResult => LogLevel::Warn,
    }
}

impl SkipReason {
    /// The reason in words.
    pub fn to_string(&self) -> (r: String)
        ensures
            r@ == skip_reason_text(*self),
    {
        match self {
            SkipReason::AuthenticationNotProvided => String::from_str("auth not provided"),
            SkipReason::SkippedByUser => String::from_str("skipped by user"),
        }
    }
}

impl SkipReason {
    /// An equal reason.
    pub fn duplicate(&self) -> (r: Self)
        ensures
            r == *self,
    {
        match self {
            SkipReason::AuthenticationNotProvided => SkipReason::AuthenticationNotProvided,
            SkipReason::SkippedByUser => SkipReason::SkippedByUser,
        }
    }
}

impl ModuleErrorKind {
    /// An equal error kind.
    pub fn duplicate(&self) -> (r: Self)
        ensures
            r == *self,
    {
        match self {
            ModuleErrorKind::UrlParse => ModuleErrorKind::UrlParse,
            ModuleErrorKind::Http => ModuleErrorKind::Http,
            ModuleErrorKind::Json => ModuleErrorKind::Json,
            ModuleErrorKind::Custom(msg) => ModuleErrorKind::Custom(msg.clone()),
        }
    }

    /// The error in words.
    pub fn to_string(&self) -> (r: String)
        ensures
            r@ == error_text(*self),
    {
        match self {
            ModuleErrorKind::UrlParse => String::from_str("url parse error"),
            ModuleErrorKind::Http => String::from_str("http error"),
            ModuleErrorKind::Json => String::from_str("json parse error"),
            ModuleErrorKind::Custom(msg) => msg.clone(),
        }
    }
}

impl SubscanModuleStatus {
    /// An equal status.
    pub fn duplicate(&self) -> (r: Self)
        ensures
            r == *self,
    {
        match self {
            SubscanModuleStatus::Started => SubscanModuleStatus::Started,
            SubscanModuleStatus::Finished => SubscanModuleStatus::Finished,
            SubscanModuleStatus::Skipped(reason) => SubscanModuleStatus::Skipped(reason.duplicate()),
            SubscanModuleStatus::Failed(err) => SubscanModuleStatus::Failed(err.duplicate()),
            SubscanModuleStatus::FailedWithResult => SubscanModuleStatus::FailedWithResult,
        }
    }

    /// The fixed token of the status: `STARTED`, `FINISHED`, `SKIPPED` or `FAILED`.
    pub fn to_string(&self) -> (r: String)
        ensures
            r@ == status_token(*self),
    {
        match self {
            SubscanModuleStatus::Started => String::from_str("STARTED"),
            SubscanModuleStatus::Finished => String::from_str("FINISHED"),
            SubscanModuleStatus::Skipped(_) => String::from_str("SKIPPED"),
            SubscanModuleStatus::Failed(_) => String::from_str("FAILED"),
            SubscanModuleStatus::FailedWithResult => String::from_str("FAILED"),
        }
    }

    /// The token in brackets, after the skip reason or the error where there is one.
    pub fn with_reason(&self) -> (r: String)
        ensures
            r@ == status_with_reason(*self),
    {
        let mut r = String::from_str("[");
        match self {
            SubscanModuleStatus::Skipped(reason) => {
                let t = reason.to_string();
                r.append(t.as_str());
                r.append(" ");
            },
            SubscanModuleStatus::Failed(err) => {
                let t = err.to_string();
                r.append(t.as_str());
                r.append(" ");
            },
            SubscanModuleStatus::FailedWithResult => {
                r.append("failed with result");
                r.append(" ");
            },
            _ => {},
        }
        let token = self.to_string();
        r.append(token.as_str());
        r.append("]");
        r
    }

    /// The status line for `module`: info while running or finished, a warning
    /// when skipped or failed after partial results, an error when failed.
    pub fn log(&self, module: &str) -> (r: LogRecord)
        ensures
            r.level == status_level(*self),
            r.module@ == module@,
            r.message@ == status_with_reason(*self),
    {
        let level = match self {
            SubscanModuleStatus::Started => LogLevel::Info,
            SubscanModuleStatus::Finished => LogLevel::Info,
            SubscanModuleStatus::Skipped(_) => LogLevel::Warn,
            SubscanModuleStatus::Failed(_) => LogLevel::Error,
            SubscanModuleStatus::FailedWithResult => LogLevel::Warn,
        };
        LogRecord { level, module: String::from_str(module), message: self.with_reason() }
    }
}

impl From<ModuleErrorKind> for SubscanModuleStatus {
    fn from(err: ModuleErrorKind) -> (r: Self) {
        SubscanModuleStatus::Failed(err)
    }
}

impl vstd::std_specs::convert::FromSpecImpl<ModuleErrorKind> for SubscanModuleStatus {
    open spec fn obeys_from_spec() -> bool {
        true
    }

    open spec fn from_spec(err: ModuleErrorKind) -> Self {
        SubscanModuleStatus::Failed(err)
    }
}

impl From<SkipReason> for SubscanModuleStatus {
    fn from(reason: SkipReason) -> (r: Self) {
        SubscanModuleStatus::Skipped(reason)
    }
}

impl vstd::std_specs::convert::FromSpecImpl<SkipReason> for SubscanModuleStatus {
    open spec fn obeys_from_spec() -> bool {
        true
    }

    open spec fn from_spec(reason: SkipReason) -> Self {
        SubscanModuleStatus::Skipped(reason)
    }
}

} // verus!
