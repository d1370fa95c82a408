use vstd::prelude::*;

verus! {

/// The error taxonomy of the engine.
///
/// Every failure of the storage layer, the translators or the dispatcher
/// is reported as one of these variants; the payload is a human-readable
/// message.
#[derive(Debug, Clone)]
pub enum RUSQLError {
    /// A recognized but unsupported statement kind or SQL feature.
    NotImplemented(String),
    /// A lookup failure inside `Table` or `Database` (column or table not found).
    General(String),
    /// A dispatcher-level failure: duplicate table, missing column, count
    /// mismatch, or a constraint violation surfaced during an insert.
    Internal(String),
    /// Reserved for the interactive shell layer.
    UnknownCommand(String),
    /// A failure of the external SQL parser, including the case of more than
    /// one statement in a single command.
    SqlError(String),
}

pub type Result<T> = core::result::Result<T, RUSQLError>;

impl RUSQLError {
    /// The message carried by the error, without the kind prefix.
    pub open spec fn spec_message(&self) -> Seq<char> {
        match self {
            RUSQLError::NotImplemented(m) => m@,
            RUSQLError::General(m) => m@,
            RUSQLError::Internal(m) => m@,
            RUSQLError::UnknownCommand(m) => m@,
            RUSQLError::SqlError(m) => m@,
        }
    }

    /// The full human-readable rendering of the error.
    pub open spec fn spec_display(&self) -> Seq<char> {
        match self {
            RUSQLError::NotImplemented(m) => "Not Implemented error: "@ + m@,
            RUSQLError::General(m) => "General error: "@ + m@,
            RUSQLError::Internal(m) => "Internal error: "@ + m@,
            RUSQLError::UnknownCommand(m) => "Unknown command error: "@ + m@,
            RUSQLError::SqlError(m) => "Parser error: "@ + m@,
        }
    }

    /// Renders the error as the text a user sees: a kind prefix followed by
    /// the message.
    pub fn display_string(&self) -> (r: String)
        ensures
            r@ == self.spec_display(),
    {
        let mut s: String = match self {
            RUSQLError::NotImplemented(_) => "Not Implemented error: ".to_owned(),
            RUSQLError::General(_) => "General error: ".to_owned(),
            RUSQLError::Internal(_) => "Internal error: ".to_owned(),
            RUSQLError::UnknownCommand(_) => "Unknown command error: ".to_owned(),
            RUSQLError::SqlError(_) => "Parser error: ".to_owned(),
        };
        let m: &String = match self {
            RUSQLError::NotImplemented(m) => m,
            RUSQLError::General(m) => m,
            RUSQLError::Internal(m) => m,
            RUSQLError::UnknownCommand(m) => m,
            RUSQLError::SqlError(m) => m,
        };
        s.append(m.as_str());
        s
    }
}

impl PartialEq for RUSQLError {
    fn eq(&self, other: &RUSQLError) -> (r: bool) {
        match (self, other) {
            (RUSQLError::NotImplemented(a), RUSQLError::NotImplemented(b)) => *a == *b,
            (RUSQLError::General(a), RUSQLError::General(b)) => *a == *b,
            (RUSQLError::Internal(a), RUSQLError::Internal(b)) => *a == *b,
            (RUSQLError::UnknownCommand(a), RUSQLError::UnknownCommand(b)) => *a == *b,
            (RUSQLError::SqlError(a), RUSQLError::SqlError(b)) => *a == *b,
            _ => false,
        }
    }
}

impl vstd::std_specs::cmp::PartialEqSpecImpl for RUSQLError {
    open spec fn obeys_eq_spec() -> bool {
        true
    }

    open spec fn eq_spec(&self, other: &RUSQLError) -> bool {
        match (self, other) {
            (RUSQLError::NotImplemented(a), RUSQLError::NotImplemented(b)) => a@ == b@,
            (RUSQLError::General(a), RUSQLError::General(b)) => a@ == b@,
            (RUSQLError::Internal(a), RUSQLError::Internal(b)) => a@ == b@,
            (RUSQLError::UnknownCommand(a), RUSQLError::UnknownCommand(b)) => a@ == b@,
            (RUSQLError::SqlError(a), RUSQLError::SqlError(b)) => a@ == b@,
            _ => false,
        }
    }
}

} // verus!
