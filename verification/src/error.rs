//! Application error type. Each error has a stable machine-readable code, an
//! English fallback message and optional context data.
use vstd::prelude::*;

verus! {

/// `std::io::Error`, carried by [`AppError::IoError`].
#[verifier::external_type_specification]
#[verifier::external_body]
pub struct ExIoError(std::io::Error);

/// `serde_json::Error`, carried by [`AppError::JsonError`].
#[verifier::external_type_specification]
#[verifier::external_body]
pub struct ExJsonError(serde_json::Error);

/// Top-level application error.
#[derive(Debug)]
pub enum AppError {
    /// An I/O operation failed (reading or writing files).
    IoError(std::io::Error),
    /// Something could not be parsed (a malformed line, a bad version, ...).
    ParseError(String),
    /// The requested configuration file (or backup) was not found.
    ConfigNotFound(String),
    /// An alias with this name already exists.
    AliasExists(String),
    /// Adding an alias met an existing one of the same name.
    AliasConflict(String),
    /// No alias with this name exists.
    AliasNotFound(String),
    /// The alias name is not valid.
    InvalidAliasName(String),
    /// JSON (de)serialisation failed.
    JsonError(serde_json::Error),
    /// A network request failed.
    NetworkError(String),
    /// The GitHub API rate limit was hit.
    RateLimited,
    /// The repository has no releases.
    ReleaseNotFound,
}

/// The text of an I/O error, as its `Display` renders it. The text comes from
/// the operating system, so nothing is claimed of it.
#[verifier::external_body]
fn io_error_text(e: &std::io::Error) -> String {
    e.to_string()
}

/// The text of a JSON error, as its `Display` renders it; nothing is claimed of
/// it.
#[verifier::external_body]
fn json_error_text(e: &serde_json::Error) -> String {
    e.to_string()
}

/// The stable code of each error kind.
pub open spec fn error_code(e: AppError) -> Seq<char> {
    match e {
        AppError::IoError(_) => "io_error"@,
        AppError::ParseError(_) => "parse_error"@,
        AppError::ConfigNotFound(_) => "config_not_found"@,
        AppError::AliasExists(_) => "alias_exists"@,
        AppError::AliasConflict(_) => "alias_conflict"@,
        AppError::AliasNotFound(_) => "alias_not_found"@,
        AppError::InvalidAliasName(_) => "invalid_alias_name"@,
        AppError::JsonError(_) => "json_error"@,
        AppError::NetworkError(_) => "network_error"@,
        AppError::RateLimited => "rate_limited"@,
        AppError::ReleaseNotFound => "release_not_found"@,
    }
}

/// The context text that an error carries as a string, if it carries one.
pub open spec fn error_text(e: AppError) -> Option<Seq<char>> {
    match e {
        AppError::ParseError(s) => Some(s@),
        AppError::ConfigNotFound(s) => Some(s@),
        AppError::AliasExists(s) => Some(s@),
        AppError::AliasConflict(s) => Some(s@),
        AppError::AliasNotFound(s) => Some(s@),
        AppError::InvalidAliasName(s) => Some(s@),
        AppError::NetworkError(s) => Some(s@),
        _ => None,
    }
}

/// The English fallback message of an error whose text is known.
pub open spec fn error_message(e: AppError) -> Seq<char> {
    match e {
        AppError::ParseError(s) => "Parse error: "@ + s@,
        AppError::ConfigNotFound(s) => "Config file not found: "@ + s@,
        AppError::AliasExists(s) => "Alias already exists: "@ + s@,
        AppError::AliasConflict(s) => "Alias \""@ + s@ + "\" already exists"@,
        AppError::AliasNotFound(s) => "Alias not found: "@ + s@,
        AppError::InvalidAliasName(s) => "Invalid alias name: "@ + s@,
        AppError::NetworkError(s) => "Network error: "@ + s@,
        AppError::RateLimited => "GitHub API rate limited, please try again later"@,
        AppError::ReleaseNotFound => "No releases found for this repository"@,
        _ => Seq::empty(),
    }
}

/// `a` followed by `b`, as a new string.
pub fn concat2(a: &str, b: &str) -> (r: String)
    ensures
        r@ == a@ + b@,
{
    let mut r = String::from_str(a);
    r.append(b);
    r
}

/// `a`, `b` and `c` in a row, as a new string.
pub fn concat3(a: &str, b: &str, c: &str) -> (r: String)
    ensures
        r@ == a@ + b@ + c@,
{
    let mut r = String::from_str(a);
    r.append(b);
    r.append(c);
    r
}

impl AppError {
    /// The stable machine-readable code of this error, which the user interface
    /// branches on and localises.
    pub fn code(&self) -> (r: &'static str)
        ensures
            r@ == error_code(*self),
    {
        match self {
            AppError::IoError(_) => "io_error",
            AppError::ParseError(_) => "parse_error",
            AppError::ConfigNotFound(_) => "config_not_found",
            AppError::AliasExists(_) => "alias_exists",
            AppError::AliasConflict(_) => "alias_conflict",
            AppError::AliasNotFound(_) => "alias_not_found",
            AppError::InvalidAliasName(_) => "invalid_alias_name",
            AppError::JsonError(_) => "json_error",
            AppError::NetworkError(_) => "network_error",
            AppError::RateLimited => "rate_limited",
            AppError::ReleaseNotFound => "release_not_found",
        }
    }

    /// The context data of this error (an alias name, a path, ...): the
    /// carried text, the rendered I/O or JSON error, or nothing for the unit
    /// kinds.
    pub fn detail(&self) -> (r: Option<String>)
        ensures
            match *self {
                AppError::IoError(_) => r is Some,
                AppError::JsonError(_) => r is Some,
                AppError::RateLimited => r is None,
                AppError::ReleaseNotFound => r is None,
                _ => r matches Some(d) && Some(d@) == error_text(*self),
            },
    {
        match self {
            AppError::IoError(e) => Some(io_error_text(e)),
            AppError::ParseError(s) => Some(s.clone()),
            AppError::ConfigNotFound(p) => Some(p.clone()),
            AppError::AliasExists(n) => Some(n.clone()),
            AppError::AliasConflict(n) => Some(n.clone()),
            AppError::AliasNotFound(n) => Some(n.clone()),
            AppError::InvalidAliasName(n) => Some(n.clone()),
            AppError::JsonError(e) => Some(json_error_text(e)),
            AppError::NetworkError(s) => Some(s.clone()),
            AppError::RateLimited => None,
            AppError::ReleaseNotFound => None,
        }
    }

    /// The English fallback message of this error (its display text).
    pub fn message(&self) -> (r: String)
        ensures
            match *self {
                AppError::IoError(_) => exists|t: Seq<char>| r@ == "I/O error: "@ + t,
                AppError::JsonError(_) => exists|t: Seq<char>| r@ == "JSON error: "@ + t,
                _ => r@ == error_message(*self),
            },
    {
        match self {
            AppError::IoError(e) => {
                let t = io_error_text(e);
                let r = concat2("I/O error: ", t.as_str());
                assert(r@ == "I/O error: "@ + t@);
                r
            },
            AppError::ParseError(s) => concat2("Parse error: ", s.as_str()),
            AppError::ConfigNotFound(s) => concat2("Config file not found: ", s.as_str()),
            AppError::AliasExists(s) => concat2("Alias already exists: ", s.as_str()),
            AppError::AliasConflict(s) => concat3("Alias \"", s.as_str(), "\" already exists"),
            AppError::AliasNotFound(s) => concat2("Alias not found: ", s.as_str()),
            AppError::InvalidAliasName(s) => concat2("Invalid alias name: ", s.as_str()),
            AppError::JsonError(e) => {
                let t = json_error_text(e);
                let r = concat2("JSON error: ", t.as_str());
                assert(r@ == "JSON error: "@ + t@);
                r
            },
            AppError::NetworkError(s) => concat2("Network error: ", s.as_str()),
            AppError::RateLimited => String::from_str("GitHub API rate limited, please try again later"),
            AppError::ReleaseNotFound => String::from_str("No releases found for this repository"),
        }
    }
}

} // verus!
