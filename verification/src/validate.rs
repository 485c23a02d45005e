//! Validation errors and the list that collects them while an entry is written.

use vstd::prelude::*;
use vstd::string::*;

verus! {

/// What a validation error says: the field it is about, if any, and the reason.
pub ghost struct ErrorModel {
    pub field: Option<Seq<char>>,
    pub reason: Seq<char>,
}

/// An error without a field.
pub open spec fn plain_error(reason: Seq<char>) -> ErrorModel {
    ErrorModel { field: None, reason }
}

/// An error about the field `field`.
pub open spec fn field_error(field: Seq<char>, reason: Seq<char>) -> ErrorModel {
    ErrorModel { field: Some(field), reason }
}

/// The text that an optional string holds.
pub open spec fn optional_text(s: Option<String>) -> Option<Seq<char>> {
    match s {
        Some(t) => Some(t@),
        None => None,
    }
}

/// A reason why an entry or one of its fields can't be written.
#[derive(Debug)]
pub struct ValidationError {
    pub field: Option<String>,
    pub reason: String,
}

impl View for ValidationError {
    type V = ErrorModel;

    open spec fn view(&self) -> ErrorModel {
        ErrorModel { field: optional_text(self.field), reason: self.reason@ }
    }
}

/// The errors of a list.
pub open spec fn error_models(errors: Seq<ValidationError>) -> Seq<ErrorModel> {
    errors.map_values(|e: ValidationError| e@)
}

/// The text of an error: the field in backquotes, where there is one, and the reason.
pub open spec fn error_text(e: ErrorModel) -> Seq<char> {
    match e.field {
        Some(field) => "for `"@ + field + "`: "@ + e.reason,
        None => e.reason,
    }
}

impl ValidationError {
    /// An error with the given reason, about no field in particular.
    pub fn invalid(reason: &str) -> (e: ValidationError)
        ensures
            e@ == plain_error(reason@),
    {
        ValidationError { field: None, reason: reason.to_owned() }
    }

    /// The same error, said of `field`.
    pub fn for_field(self, field: &str) -> (e: ValidationError)
        ensures
            e@ == field_error(field@, self@.reason),
    {
        ValidationError { field: Some(field.to_owned()), reason: self.reason }
    }

    /// A copy of the error.
    pub fn duplicate(&self) -> (e: ValidationError)
        ensures
            e@ == self@,
    {
        let field = match &self.field {
            Some(f) => Some(f.clone()),
            None => None,
        };
        ValidationError { field, reason: self.reason.clone() }
    }

    /// The error as text.
    pub fn message(&self) -> (text: String)
        ensures
            text@ == error_text(self@),
    {
        match &self.field {
            Some(field) => {
                let mut text = "for `".to_owned();
                text.append(field.as_str());
                text.append("`: ");
                text.append(self.reason.as_str());
                text
            },
            None => self.reason.clone(),
        }
    }
}

/// Collects errors in the order in which they come up.
#[derive(Debug)]
pub struct ValidationErrorBuilder {
    pub errors: Vec<ValidationError>,
}

impl View for ValidationErrorBuilder {
    type V = Seq<ErrorModel>;

    open spec fn view(&self) -> Seq<ErrorModel> {
        error_models(self.errors@)
    }
}

impl Default for ValidationErrorBuilder {
    fn default() -> (b: ValidationErrorBuilder)
        ensures
            b@ == Seq::<ErrorModel>::empty(),
    {
        let b = ValidationErrorBuilder { errors: Vec::new() };
        assert(b@ =~= Seq::<ErrorModel>::empty());
        b
    }
}

impl ValidationErrorBuilder {
    /// Adds an error.
    pub fn extend_mut(&mut self, error: ValidationError)
        ensures
            final(self)@ == old(self)@.push(error@),
    {
        self.errors.push(error);
        assert(self@ =~= old(self)@.push(error@));
    }

    /// Adds an error with the given reason, about no field in particular.
    pub fn invalid_mut(&mut self, reason: &str)
        ensures
            final(self)@ == old(self)@.push(plain_error(reason@)),
    {
        self.extend_mut(ValidationError::invalid(reason));
    }

    /// The collected errors, if there are any.
    pub fn build(self) -> (res: Result<(), Vec<ValidationError>>)
        ensures
            res is Ok <==> self@.len() == 0,
            res matches Err(errors) ==> error_models(errors@) == self@,
    {
        if self.errors.len() == 0 {
            Ok(())
        } else {
            Err(self.errors)
        }
    }
}

/// Whether the text or the errors are those that are expected.
pub open spec fn is_result(
    res: Result<String, Vec<ValidationError>>,
    expected: Result<Seq<char>, Seq<ErrorModel>>,
) -> bool {
    match res {
        Ok(text) => expected == Ok::<Seq<char>, Seq<ErrorModel>>(text@),
        Err(errors) => expected == Err::<Seq<char>, Seq<ErrorModel>>(error_models(errors@)),
    }
}

/// What an error says: the field that it is about in backquotes, if there is one, and the reason.
pub proof fn errors_name_their_fields(field: Seq<char>, reason: Seq<char>)
    ensures
        error_text(plain_error(reason)) == reason,
        error_text(field_error(field, reason)) == "for `"@ + field + "`: "@ + reason,
        plain_error(reason).field is None,
        field_error(field, reason).field == Some(field),
        plain_error(reason).reason == reason,
        field_error(field, reason).reason == reason,
{
}

} // verus!
