//! The library's error type.

use vstd::prelude::*;

verus! {

/// `std::io::Error`, carried through unchanged from file operations.
#[verifier::external_type_specification]
#[verifier::external_body]
pub struct ExIoError(std::io::Error);

/// Errors of the data-source, storage and screening layers.
#[derive(Debug)]
pub enum Error {
    /// A data source failed or returned unusable data.
    Source { source_name: String, detail: String },
    /// Required data is missing.
    MissingData(String),
    /// Data failed a validation rule.
    Validation(String),
    /// Configuration is invalid.
    Config(String),
    /// A file operation failed.
    Io(std::io::Error),
    /// Any other failure.
    Other(String),
}

/// Whether `error` is a data-source error naming `source` with the text `detail`.
pub open spec fn is_source_error(error: Error, source: Seq<char>, detail: Seq<char>) -> bool {
    error matches Error::Source { source_name, detail: d } && source_name@ == source && d@
        == detail
}

/// The text of `std::io::Error`'s `Display`.
///
/// Nothing is stated of the text: it comes from the operating system's description of
/// the error and differs between machines.
#[verifier::external_body]
fn io_error_text(error: &std::io::Error) -> String {
    error.to_string()
}

/// The text of an error whose variant carries `text`, behind the variant's label.
pub open spec fn labelled(label: Seq<char>, text: Seq<char>) -> Seq<char> {
    label + text
}

impl Error {
    /// The error's text: the variant's label followed by what it carries.
    pub fn message(&self) -> (text: String)
        ensures
            match self {
                Error::Source { source_name, detail } => text@ == "数据源错误 ["@ + source_name@
                    + "]: "@ + detail@,
                Error::MissingData(m) => text@ == labelled("数据缺失: "@, m@),
                Error::Validation(m) => text@ == labelled("数据校验失败: "@, m@),
                Error::Config(m) => text@ == labelled("配置错误: "@, m@),
                Error::Io(_) => exists|t: Seq<char>| text@ == #[trigger] labelled("IO 错误: "@, t),
                Error::Other(m) => text@ == labelled("其他错误: "@, m@),
            },
    {
        match self {
            Error::Source { source_name, detail } => {
                let mut text = "数据源错误 [".to_string();
                text.append(source_name.as_str());
                text.append("]: ");
                text.append(detail.as_str());
                text
            },
            Error::MissingData(m) => {
                let mut text = "数据缺失: ".to_string();
                text.append(m.as_str());
                text
            },
            Error::Validation(m) => {
                let mut text = "数据校验失败: ".to_string();
                text.append(m.as_str());
                text
            },
            Error::Config(m) => {
                let mut text = "配置错误: ".to_string();
                text.append(m.as_str());
                text
            },
            Error::Io(e) => {
                let detail = io_error_text(e);
                let mut text = "IO 错误: ".to_string();
                text.append(detail.as_str());
                assert(text@ == labelled("IO 错误: "@, detail@));
                text
            },
            Error::Other(m) => {
                let mut text = "其他错误: ".to_string();
                text.append(m.as_str());
                text
            },
        }
    }

    /// A data-source error for `source` with the given detail.
    pub fn source_err(source: &str, detail: &str) -> (error: Error)
        ensures
            is_source_error(error, source@, detail@),
    {
        Error::Source { source_name: source.to_string(), detail: detail.to_string() }
    }
}

} // verus!
