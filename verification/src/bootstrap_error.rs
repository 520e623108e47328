//! What is reported when the process cannot start.

use vstd::prelude::*;

verus! {

/// The kind of a failed start.
#[derive(Debug, Clone, Copy, PartialEq, Eq, Structural)]
pub enum BootstrapErrorCode {
    /// Logging could not be set up.
    LoggingInitFailed,
}

/// A failed start: its kind, the stage it failed in, a message, named details in the order they
/// were added, and the text of the error behind it.
#[derive(Debug)]
pub struct BootstrapError {
    /// The kind of failure.
    pub code: BootstrapErrorCode,
    /// The stage of the start that failed.
    pub stage: String,
    /// What to tell the user.
    pub message: String,
    /// The error behind this one. It may hold paths and stays out of the details.
    pub source: Option<String>,
    /// Details, each with its name.
    pub fields: Vec<(String, String)>,
}

/// The details of an error, as texts.
pub open spec fn field_texts(fields: Seq<(String, String)>) -> Seq<(Seq<char>, Seq<char>)> {
    Seq::new(fields.len(), |i: int| (fields[i].0@, fields[i].1@))
}

impl BootstrapError {
    /// The details, as texts.
    pub open spec fn spec_fields(self) -> Seq<(Seq<char>, Seq<char>)> {
        field_texts(self.fields@)
    }

    /// Whether the text of the error behind this one is `source`.
    pub open spec fn has_source(self, source: Seq<char>) -> bool {
        self.source matches Some(text) && text@ == source
    }

    /// An error without details.
    pub fn new(code: BootstrapErrorCode, stage: &str, message: &str) -> (error: Self)
        ensures
            error.code == code,
            error.stage@ == stage@,
            error.message@ == message@,
            error.source is None,
            error.spec_fields() == Seq::<(Seq<char>, Seq<char>)>::empty(),
    {
        let error = BootstrapError {
            code,
            stage: stage.to_owned(),
            message: message.to_owned(),
            source: None,
            fields: Vec::new(),
        };
        assert(error.spec_fields() =~= Seq::<(Seq<char>, Seq<char>)>::empty());
        error
    }

    /// The error with the text of the error behind it.
    pub fn with_source(self, source: String) -> (error: Self)
        ensures
            error == (BootstrapError { source: Some(source), ..self }),
    {
        let mut error = self;
        error.source = Some(source);
        error
    }

    /// The error with one more detail.
    pub fn with_field(self, name: &str, value: String) -> (error: Self)
        ensures
            error.code == self.code,
            error.stage == self.stage,
            error.message == self.message,
            error.source == self.source,
            error.spec_fields() == self.spec_fields().push((name@, value@)),
    {
        let mut error = self;
        error.fields.push((name.to_owned(), value));
        assert(error.spec_fields() =~= self.spec_fields().push((name@, value@)));
        error
    }
}

} // verus!
