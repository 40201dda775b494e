//! The error taxonomy shared by the tokenizer, the parsers and the engine.

use vstd::prelude::*;

verus! {

/// One error kind per failure class: a table that cannot be used, a column
/// that a command names but the table lacks, a command that does not match
/// the grammar, and everything else.
#[derive(Debug)]
pub enum CustomError {
    InvalidTable { message: String },
    InvalidColumn { message: String },
    InvalidSyntax { message: String },
    GenericError { message: String },
}

/// An error's kind with the message abstracted away: the engine's
/// specifications classify failures by these.
pub enum ErrorKind {
    InvalidTable,
    InvalidColumn,
    InvalidSyntax,
    GenericError,
}

impl CustomError {
    /// The kind of this error.
    pub open spec fn spec_kind(&self) -> ErrorKind {
        match self {
            CustomError::InvalidTable { .. } => ErrorKind::InvalidTable,
            CustomError::InvalidColumn { .. } => ErrorKind::InvalidColumn,
            CustomError::InvalidSyntax { .. } => ErrorKind::InvalidSyntax,
            CustomError::GenericError { .. } => ErrorKind::GenericError,
        }
    }

    /// The message carried by the error, whatever its kind.
    pub open spec fn spec_message(&self) -> Seq<char> {
        match self {
            CustomError::InvalidTable { message } => message@,
            CustomError::InvalidColumn { message } => message@,
            CustomError::InvalidSyntax { message } => message@,
            CustomError::GenericError { message } => message@,
        }
    }

    /// The tag under which the error prints, followed by its message.
    pub open spec fn spec_kind_tag(&self) -> Seq<char> {
        match self {
            CustomError::InvalidTable { .. } => "INVALID_TABLE: "@,
            CustomError::InvalidColumn { .. } => "INVALID_COLUMN: "@,
            CustomError::InvalidSyntax { .. } => "INVALID_SYNTAX: "@,
            CustomError::GenericError { .. } => "ERROR: "@,
        }
    }

    /// A syntax error carrying `message`.
    pub fn invalid_syntax(message: &str) -> (e: CustomError)
        ensures
            e is InvalidSyntax,
            e.spec_message() == message@,
    {
        CustomError::InvalidSyntax { message: String::from_str(message) }
    }

    /// Renders the error as `<KIND>: <message>`.
    pub fn display_text(&self) -> (r: String)
        ensures
            r@ == self.spec_kind_tag() + self.spec_message(),
    {
        let (tag, message): (&str, &String) = match self {
            CustomError::InvalidTable { message } => ("INVALID_TABLE: ", message),
            CustomError::InvalidColumn { message } => ("INVALID_COLUMN: ", message),
            CustomError::InvalidSyntax { message } => ("INVALID_SYNTAX: ", message),
            CustomError::GenericError { message } => ("ERROR: ", message),
        };
        let mut r = String::from_str(tag);
        r.append(message.as_str());
        r
    }
}

impl PartialEq for CustomError {
    fn eq(&self, other: &CustomError) -> (r: bool) {
        match (self, other) {
            (
                CustomError::InvalidTable { message: a },
                CustomError::InvalidTable { message: b },
            ) => crate::text::str_eq_str(a.as_str(), b.as_str()),
            (
                CustomError::InvalidColumn { message: a },
                CustomError::InvalidColumn { message: b },
            ) => crate::text::str_eq_str(a.as_str(), b.as_str()),
            (
                CustomError::InvalidSyntax { message: a },
                CustomError::InvalidSyntax { message: b },
            ) => crate::text::str_eq_str(a.as_str(), b.as_str()),
            (
                CustomError::GenericError { message: a },
                CustomError::GenericError { message: b },
            ) => crate::text::str_eq_str(a.as_str(), b.as_str()),
            _ => false,
        }
    }
}

impl vstd::std_specs::cmp::PartialEqSpecImpl for CustomError {
    open spec fn obeys_eq_spec() -> bool {
        true
    }

    open spec fn eq_spec(&self, other: &CustomError) -> bool {
        match (self, other) {
            (
                CustomError::InvalidTable { message: a },
                CustomError::InvalidTable { message: b },
            ) => a@ == b@,
            (
                CustomError::InvalidColumn { message: a },
                CustomError::InvalidColumn { message: b },
            ) => a@ == b@,
            (
                CustomError::InvalidSyntax { message: a },
                CustomError::InvalidSyntax { message: b },
            ) => a@ == b@,
            (
                CustomError::GenericError { message: a },
                CustomError::GenericError { message: b },
            ) => a@ == b@,
            _ => false,
        }
    }
}

} // verus!
