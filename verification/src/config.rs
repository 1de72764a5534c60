//! Where the sink's connection descriptor comes from.
//!
//! The descriptor is given either directly or as the path of a file that
//! holds it, never both. The program reads its environment and the file;
//! the rules are here.

use vstd::prelude::*;

verus! {

/// Why no connection descriptor can be had.
#[derive(Debug, Clone, Copy, PartialEq, Eq, Structural)]
pub enum ConfigError {
    /// The descriptor and a file for it are both given.
    BothGiven,
    /// The file that should hold the descriptor cannot be read.
    FileUnreadable,
    /// Neither the descriptor nor a file for it is given.
    NoneGiven,
}

/// The message that goes with a configuration error.
pub open spec fn message_of(error: ConfigError) -> Seq<char> {
    match error {
        ConfigError::BothGiven => "Only one SENTRY_DSN or SENTRY_SDN_FILE should be specified!"@,
        ConfigError::FileUnreadable => "Defined SENTRY_DSN_FILE not found"@,
        ConfigError::NoneGiven =>
            "SENTRY_DSN and SENTRY_DSN_FILE not defined you must pass one of both as env"@,
    }
}

impl ConfigError {
    /// The message that goes with the error.
    pub fn message(&self) -> (text: &'static str)
        ensures
            text@ == message_of(*self),
    {
        match self {
            ConfigError::BothGiven => "Only one SENTRY_DSN or SENTRY_SDN_FILE should be specified!",
            ConfigError::FileUnreadable => "Defined SENTRY_DSN_FILE not found",
            ConfigError::NoneGiven =>
                "SENTRY_DSN and SENTRY_DSN_FILE not defined you must pass one of both as env",
        }
    }
}

/// Where to take the connection descriptor from.
#[derive(Debug, PartialEq, Eq)]
pub enum DsnSource {
    /// The descriptor itself.
    Given(String),
    /// The path of the file that holds the descriptor.
    File(String),
}

/// The mathematical content of a [`DsnSource`].
pub ghost enum DsnSourceView {
    Given(Seq<char>),
    File(Seq<char>),
}

impl View for DsnSource {
    type V = DsnSourceView;

    open spec fn view(&self) -> DsnSourceView {
        match self {
            DsnSource::Given(dsn) => DsnSourceView::Given(dsn@),
            DsnSource::File(path) => DsnSourceView::File(path@),
        }
    }
}

/// The source of the descriptor, given what the environment holds of the
/// descriptor and of the path of its file.
pub open spec fn dsn_source_of(dsn: Option<Seq<char>>, dsn_file: Option<Seq<char>>) -> Result<
    DsnSourceView,
    ConfigError,
> {
    match (dsn, dsn_file) {
        (Some(_), Some(_)) => Err(ConfigError::BothGiven),
        (Some(given), None) => Ok(DsnSourceView::Given(given)),
        (None, Some(path)) => Ok(DsnSourceView::File(path)),
        (None, None) => Err(ConfigError::NoneGiven),
    }
}

/// The contents of a string that may be absent.
pub open spec fn optional_text_view(text: Option<String>) -> Option<Seq<char>> {
    match text {
        Some(t) => Some(t@),
        None => None,
    }
}

/// Decides where the connection descriptor comes from: exactly one of the
/// descriptor and the path of its file must be given.
pub fn dsn_source(dsn: Option<String>, dsn_file: Option<String>) -> (source: Result<
    DsnSource,
    ConfigError,
>)
    ensures
        match source {
            Ok(s) => dsn_source_of(optional_text_view(dsn), optional_text_view(dsn_file)) == Ok::<
                DsnSourceView,
                ConfigError,
            >(s@),
            Err(e) => dsn_source_of(optional_text_view(dsn), optional_text_view(dsn_file)) == Err::<
                DsnSourceView,
                ConfigError,
            >(e),
        },
{
    match dsn {
        Some(given) => match dsn_file {
            Some(_) => Err(ConfigError::BothGiven),
            None => Ok(DsnSource::Given(given)),
        },
        None => match dsn_file {
            Some(path) => Ok(DsnSource::File(path)),
            None => Err(ConfigError::NoneGiven),
        },
    }
}

/// The descriptor read from its file: the file's contents as they are, or
/// an error where the file could not be read.
pub fn dsn_from_file(contents: Option<String>) -> (dsn: Result<String, ConfigError>)
    ensures
        match dsn {
            Ok(text) => contents == Some(text),
            Err(e) => contents is None && e == ConfigError::FileUnreadable,
        },
{
    match contents {
        Some(text) => Ok(text),
        None => Err(ConfigError::FileUnreadable),
    }
}

} // verus!
