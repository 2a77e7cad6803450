//! What is logged for operators, how and where.
use crate::error::{bad_input, Error, Failure};
use crate::text::{ascii_lower, concat3, opt_str, opt_text, owned, same, to_lower, trim, trimmed};
use vstd::prelude::*;

verus! {

/// From which level on events are logged.
#[derive(Debug, Clone, Copy, PartialEq, Eq, Structural)]
pub enum ApplicationLogLevel {
    Trace,
    Debug,
    Info,
    Warn,
    Error,
    Off,
}

/// How events are logged.
#[derive(Debug, Clone, Copy, PartialEq, Eq, Structural)]
pub enum ApplicationLogFormat {
    Pretty,
    Json,
}

/// Where events are logged.
#[derive(Debug, Clone, Copy, PartialEq, Eq, Structural)]
pub enum ApplicationLogDestination {
    Stderr,
    Stdout,
    File,
}

impl ApplicationLogLevel {
    pub open spec fn name(self) -> Seq<char> {
        match self {
            ApplicationLogLevel::Trace => "trace"@,
            ApplicationLogLevel::Debug => "debug"@,
            ApplicationLogLevel::Info => "info"@,
            ApplicationLogLevel::Warn => "warn"@,
            ApplicationLogLevel::Error => "error"@,
            ApplicationLogLevel::Off => "off"@,
        }
    }

    pub fn as_str(self) -> (r: &'static str)
        ensures
            r@ == self.name(),
    {
        match self {
            ApplicationLogLevel::Trace => "trace",
            ApplicationLogLevel::Debug => "debug",
            ApplicationLogLevel::Info => "info",
            ApplicationLogLevel::Warn => "warn",
            ApplicationLogLevel::Error => "error",
            ApplicationLogLevel::Off => "off",
        }
    }
}

impl ApplicationLogFormat {
    pub open spec fn name(self) -> Seq<char> {
        match self {
            ApplicationLogFormat::Pretty => "pretty"@,
            ApplicationLogFormat::Json => "json"@,
        }
    }

    pub fn as_str(self) -> (r: &'static str)
        ensures
            r@ == self.name(),
    {
        match self {
            ApplicationLogFormat::Pretty => "pretty",
            ApplicationLogFormat::Json => "json",
        }
    }
}

impl ApplicationLogDestination {
    pub open spec fn name(self) -> Seq<char> {
        match self {
            ApplicationLogDestination::Stderr => "stderr"@,
            ApplicationLogDestination::Stdout => "stdout"@,
            ApplicationLogDestination::File => "file"@,
        }
    }

    pub fn as_str(self) -> (r: &'static str)
        ensures
            r@ == self.name(),
    {
        match self {
            ApplicationLogDestination::Stderr => "stderr",
            ApplicationLogDestination::Stdout => "stdout",
            ApplicationLogDestination::File => "file",
        }
    }
}

/// The word that a setting is: without white space around it, in lower case.
pub open spec fn setting_word(raw: Seq<char>) -> Seq<char> {
    ascii_lower(trimmed(raw))
}

pub fn setting(raw: &str) -> (r: String)
    ensures
        r@ == setting_word(raw@),
{
    let bare = trim(raw);
    to_lower(bare.as_str())
}

/// The level that a setting names.
pub open spec fn level_named(raw: Seq<char>) -> Result<ApplicationLogLevel, Failure> {
    let w = setting_word(raw);
    if w == "trace"@ {
        Ok(ApplicationLogLevel::Trace)
    } else if w == "debug"@ {
        Ok(ApplicationLogLevel::Debug)
    } else if w == "info"@ {
        Ok(ApplicationLogLevel::Info)
    } else if w == "warn"@ {
        Ok(ApplicationLogLevel::Warn)
    } else if w == "error"@ {
        Ok(ApplicationLogLevel::Error)
    } else if w == "off"@ {
        Ok(ApplicationLogLevel::Off)
    } else {
        Err(
            bad_input(
                "Unsupported log level '"@ + w
                    + "'; expected trace, debug, info, warn, error, or off"@,
            ),
        )
    }
}

pub fn parse_log_level(raw: &str) -> (r: Result<ApplicationLogLevel, Error>)
    ensures
        match (level_named(raw@), r) {
            (Ok(a), Ok(b)) => a == b,
            (Err(f), Err(e)) => e@ == f,
            _ => false,
        },
{
    let word = setting(raw);
    let w = word.as_str();
    if same(w, "trace") {
        Ok(ApplicationLogLevel::Trace)
    } else if same(w, "debug") {
        Ok(ApplicationLogLevel::Debug)
    } else if same(w, "info") {
        Ok(ApplicationLogLevel::Info)
    } else if same(w, "warn") {
        Ok(ApplicationLogLevel::Warn)
    } else if same(w, "error") {
        Ok(ApplicationLogLevel::Error)
    } else if same(w, "off") {
        Ok(ApplicationLogLevel::Off)
    } else {
        Err(
            Error::invalid_input(
                concat3(
                    "Unsupported log level '",
                    w,
                    "'; expected trace, debug, info, warn, error, or off",
                ),
            ),
        )
    }
}

/// The format that a setting names.
pub open spec fn format_named(raw: Seq<char>) -> Result<ApplicationLogFormat, Failure> {
    let w = setting_word(raw);
    if w == "pretty"@ {
        Ok(ApplicationLogFormat::Pretty)
    } else if w == "json"@ {
        Ok(ApplicationLogFormat::Json)
    } else {
        Err(bad_input("Unsupported log format '"@ + w + "'; expected pretty or json"@))
    }
}

pub fn parse_log_format(raw: &str) -> (r: Result<ApplicationLogFormat, Error>)
    ensures
        match (format_named(raw@), r) {
            (Ok(a), Ok(b)) => a == b,
            (Err(f), Err(e)) => e@ == f,
            _ => false,
        },
{
    let word = setting(raw);
    let w = word.as_str();
    if same(w, "pretty") {
        Ok(ApplicationLogFormat::Pretty)
    } else if same(w, "json") {
        Ok(ApplicationLogFormat::Json)
    } else {
        Err(
            Error::invalid_input(
                concat3("Unsupported log format '", w, "'; expected pretty or json"),
            ),
        )
    }
}

/// The destination that a setting names.
pub open spec fn destination_named(raw: Seq<char>) -> Result<ApplicationLogDestination, Failure> {
    let w = setting_word(raw);
    if w == "stderr"@ {
        Ok(ApplicationLogDestination::Stderr)
    } else if w == "stdout"@ {
        Ok(ApplicationLogDestination::Stdout)
    } else if w == "file"@ {
        Ok(ApplicationLogDestination::File)
    } else {
        Err(
            bad_input(
                "Unsupported log destination '"@ + w + "'; expected stderr, stdout, or file"@,
            ),
        )
    }
}

pub fn parse_log_destination(raw: &str) -> (r: Result<ApplicationLogDestination, Error>)
    ensures
        match (destination_named(raw@), r) {
            (Ok(a), Ok(b)) => a == b,
            (Err(f), Err(e)) => e@ == f,
            _ => false,
        },
{
    let word = setting(raw);
    let w = word.as_str();
    if same(w, "stderr") {
        Ok(ApplicationLogDestination::Stderr)
    } else if same(w, "stdout") {
        Ok(ApplicationLogDestination::Stdout)
    } else if same(w, "file") {
        Ok(ApplicationLogDestination::File)
    } else {
        Err(
            Error::invalid_input(
                concat3(
                    "Unsupported log destination '",
                    w,
                    "'; expected stderr, stdout, or file",
                ),
            ),
        )
    }
}

/// What is logged, how and where. The file is where it is logged to a file.
#[derive(Debug, PartialEq, Eq)]
pub struct ApplicationLoggingConfig {
    pub level: ApplicationLogLevel,
    pub format: ApplicationLogFormat,
    pub destination: ApplicationLogDestination,
    pub file: Option<String>,
}

/// The model of the settings.
pub struct LoggingModel {
    pub level: ApplicationLogLevel,
    pub format: ApplicationLogFormat,
    pub destination: ApplicationLogDestination,
    pub file: Option<Seq<char>>,
}

impl View for ApplicationLoggingConfig {
    type V = LoggingModel;

    open spec fn view(&self) -> LoggingModel {
        LoggingModel {
            level: self.level,
            format: self.format,
            destination: self.destination,
            file: opt_text(self.file),
        }
    }
}

/// Nothing is logged.
pub open spec fn default_logging() -> LoggingModel {
    LoggingModel {
        level: ApplicationLogLevel::Off,
        format: ApplicationLogFormat::Pretty,
        destination: ApplicationLogDestination::Stderr,
        file: None,
    }
}

/// The settings that are given, with the defaults for the others.
pub open spec fn logging_parts(
    level: Option<Seq<char>>,
    format: Option<Seq<char>>,
    destination: Option<Seq<char>>,
    file: Option<Seq<char>>,
) -> Result<LoggingModel, Failure> {
    let l = match level {
        Some(raw) => level_named(raw),
        None => Ok(ApplicationLogLevel::Off),
    };
    let f = match format {
        Some(raw) => format_named(raw),
        None => Ok(ApplicationLogFormat::Pretty),
    };
    let d = match destination {
        Some(raw) => destination_named(raw),
        None => Ok(ApplicationLogDestination::Stderr),
    };
    match (l, f, d) {
        (Err(e), _, _) => Err(e),
        (Ok(_), Err(e), _) => Err(e),
        (Ok(_), Ok(_), Err(e)) => Err(e),
        (Ok(level), Ok(format), Ok(destination)) => Ok(
            LoggingModel { level, format, destination, file },
        ),
    }
}

/// The failure of logging to a file that is not named.
pub open spec fn no_log_file() -> Failure {
    bad_input("logging.file is required when logging.destination is file"@)
}

/// Why settings are refused: they log to a file that is not named.
pub open spec fn logging_refusal(m: LoggingModel) -> Option<Failure> {
    if m.destination == ApplicationLogDestination::File && match m.file {
        Some(path) => path.len() == 0,
        None => true,
    } {
        Some(no_log_file())
    } else {
        None
    }
}

impl Default for ApplicationLoggingConfig {
    fn default() -> (r: Self)
        ensures
            r@ == default_logging(),
    {
        ApplicationLoggingConfig {
            level: ApplicationLogLevel::Off,
            format: ApplicationLogFormat::Pretty,
            destination: ApplicationLogDestination::Stderr,
            file: None,
        }
    }
}

impl ApplicationLoggingConfig {
    pub fn from_parts(
        level: Option<&str>,
        format: Option<&str>,
        destination: Option<&str>,
        file: Option<String>,
    ) -> (r: Result<Self, Error>)
        ensures
            match (
                logging_parts(
                    opt_str(level),
                    opt_str(format),
                    opt_str(destination),
                    opt_text(file),
                ),
                r,
            ) {
                (Ok(m), Ok(config)) => config@ == m,
                (Err(f), Err(e)) => e@ == f,
                _ => false,
            },
    {
        let level = match level {
            Some(raw) => match parse_log_level(raw) {
                Ok(level) => level,
                Err(e) => {
                    return Err(e);
                },
            },
            None => ApplicationLogLevel::Off,
        };
        let format = match format {
            Some(raw) => match parse_log_format(raw) {
                Ok(format) => format,
                Err(e) => {
                    return Err(e);
                },
            },
            None => ApplicationLogFormat::Pretty,
        };
        let destination = match destination {
            Some(raw) => match parse_log_destination(raw) {
                Ok(destination) => destination,
                Err(e) => {
                    return Err(e);
                },
            },
            None => ApplicationLogDestination::Stderr,
        };
        Ok(ApplicationLoggingConfig { level, format, destination, file })
    }

    pub fn validate(&self) -> (r: Result<(), Error>)
        ensures
            match (logging_refusal(self@), r) {
                (None, Ok(())) => true,
                (Some(f), Err(e)) => e@ == f,
                _ => false,
            },
    {
        let named = match &self.file {
            Some(path) => !path.as_str().is_empty(),
            None => false,
        };
        match self.destination {
            ApplicationLogDestination::File => {
                if !named {
                    return Err(
                        Error::invalid_input(
                            owned("logging.file is required when logging.destination is file"),
                        ),
                    );
                }
            },
            _ => {},
        }
        Ok(())
    }
}

} // verus!
