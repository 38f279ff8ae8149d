//! The library's error type: the failures of the file system, of SQLite, of
//! the file watcher and of JSON, and messages of the library's own.
use vstd::prelude::*;

#[allow(unused_imports)]
use crate::text::starts_with;

verus! {

#[verifier::external_type_specification]
#[verifier::external_body]
pub struct ExIoError(std::io::Error);

#[verifier::external_type_specification]
#[verifier::external_body]
pub struct ExSqlError(rusqlite::Error);

#[verifier::external_type_specification]
#[verifier::external_body]
pub struct ExNotifyError(notify::Error);

#[verifier::external_type_specification]
#[verifier::external_body]
pub struct ExJsonError(serde_json::Error);

#[derive(Debug)]
pub enum AppError {
    Io(std::io::Error),
    Sql(rusqlite::Error),
    Notify(notify::Error),
    SerdeJson(serde_json::Error),
    Message(String),
}

impl AppError {
    /// An error that carries the given message.
    pub fn message(message: String) -> (e: AppError)
        ensures
            e matches AppError::Message(m) && m@ == message@,
    {
        AppError::Message(message)
    }

    /// An error that carries a copy of the given text.
    pub fn message_str(message: &str) -> (e: AppError)
        ensures
            e matches AppError::Message(m) && m@ == message@,
    {
        AppError::Message(String::from_str(message))
    }

    /// The prefix that the text of each kind of error starts with.
    pub open spec fn prefix(self) -> Seq<char> {
        match self {
            AppError::Io(_) => "IO 错误: "@,
            AppError::Sql(_) => "SQLite 错误: "@,
            AppError::Notify(_) => "文件监听错误: "@,
            AppError::SerdeJson(_) => "JSON 错误: "@,
            AppError::Message(_) => Seq::empty(),
        }
    }

    /// The text of the error, as the user sees it: a message error is its
    /// message; any other error is its kind's prefix followed by the text of
    /// the underlying failure.
    pub fn describe(&self) -> (s: String)
        ensures
            self matches AppError::Message(m) ==> s@ == m@,
            starts_with(s@, self.prefix()),
    {
        match self {
            AppError::Io(err) => prefixed("IO 错误: ", io_error_text(err)),
            AppError::Sql(err) => prefixed("SQLite 错误: ", sql_error_text(err)),
            AppError::Notify(err) => prefixed("文件监听错误: ", notify_error_text(err)),
            AppError::SerdeJson(err) => prefixed("JSON 错误: ", json_error_text(err)),
            AppError::Message(m) => {
                assert(m@.take(0) =~= Seq::<char>::empty());
                m.clone()
            },
        }
    }
}

fn prefixed(prefix: &str, detail: String) -> (s: String)
    ensures
        s@ == prefix@ + detail@,
        starts_with(s@, prefix@),
{
    let s = String::from_str(prefix).concat(detail.as_str());
    assert((prefix@ + detail@).take(prefix@.len() as int) == prefix@);
    s
}

/// The `Display` text of a `std::io::Error`; it depends on the operating
/// system's message for the error, so nothing is stated of it.
#[verifier::external_body]
fn io_error_text(err: &std::io::Error) -> String {
    err.to_string()
}

/// The `Display` text of a `rusqlite::Error`; it can hold SQLite's own
/// message, so nothing is stated of it.
#[verifier::external_body]
fn sql_error_text(err: &rusqlite::Error) -> String {
    err.to_string()
}

/// The `Display` text of a `notify::Error`; it can hold the operating
/// system's message, so nothing is stated of it.
#[verifier::external_body]
fn notify_error_text(err: &notify::Error) -> String {
    err.to_string()
}

/// The `Display` text of a `serde_json::Error`; nothing is stated of it.
#[verifier::external_body]
fn json_error_text(err: &serde_json::Error) -> String {
    err.to_string()
}

impl From<std::io::Error> for AppError {
    fn from(value: std::io::Error) -> (e: Self) {
        AppError::Io(value)
    }
}

impl vstd::std_specs::convert::FromSpecImpl<std::io::Error> for AppError {
    open spec fn obeys_from_spec() -> bool {
        true
    }

    open spec fn from_spec(v: std::io::Error) -> Self {
        AppError::Io(v)
    }
}

impl From<rusqlite::Error> for AppError {
    fn from(value: rusqlite::Error) -> (e: Self) {
        AppError::Sql(value)
    }
}

impl vstd::std_specs::convert::FromSpecImpl<rusqlite::Error> for AppError {
    open spec fn obeys_from_spec() -> bool {
        true
    }

    open spec fn from_spec(v: rusqlite::Error) -> Self {
        AppError::Sql(v)
    }
}

impl From<notify::Error> for AppError {
    fn from(value: notify::Error) -> (e: Self) {
        AppError::Notify(value)
    }
}

impl vstd::std_specs::convert::FromSpecImpl<notify::Error> for AppError {
    open spec fn obeys_from_spec() -> bool {
        true
    }

    open spec fn from_spec(v: notify::Error) -> Self {
        AppError::Notify(v)
    }
}

impl From<serde_json::Error> for AppError {
    fn from(value: serde_json::Error) -> (e: Self) {
        AppError::SerdeJson(value)
    }
}

impl vstd::std_specs::convert::FromSpecImpl<serde_json::Error> for AppError {
    open spec fn obeys_from_spec() -> bool {
        true
    }

    open spec fn from_spec(v: serde_json::Error) -> Self {
        AppError::SerdeJson(v)
    }
}

} // verus!
