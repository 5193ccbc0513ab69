//! Uploading a group's schedule: the form fields that an upload needs.
use vstd::prelude::*;

verus! {

/// A required field of the upload form is missing.
#[derive(Clone, Copy, Debug, PartialEq, Eq, Structural)]
pub enum FormError {
    /// No `file` field.
    EmptyFile,
    /// No `group_id` field.
    EmptyGroupId,
}

impl FormError {
    /// The message sent back to the client.
    pub fn message(&self) -> (m: &'static str)
        ensures
            m@ == match self {
                FormError::EmptyFile => "form_field_empty_file"@,
                FormError::EmptyGroupId => "form_field_empty_group_id"@,
            },
    {
        match self {
            FormError::EmptyFile => "form_field_empty_file",
            FormError::EmptyGroupId => "form_field_empty_group_id",
        }
    }
}

/// The file and the group of an upload, or the first missing field
/// (the file is checked first).
pub fn import_form(file: Option<Vec<u8>>, group_id: Option<i64>) -> (r: Result<
    (Vec<u8>, i64),
    FormError,
>)
    ensures
        match (file, group_id) {
            (None, _) => r == Err::<(Vec<u8>, i64), FormError>(FormError::EmptyFile),
            (Some(_), None) => r == Err::<(Vec<u8>, i64), FormError>(FormError::EmptyGroupId),
            (Some(f), Some(g)) => r matches Ok((f2, g2)) && f2@ == f@ && g2 == g,
        },
{
    let f = match file {
        Some(f) => f,
        None => return Err(FormError::EmptyFile),
    };
    let g = match group_id {
        Some(g) => g,
        None => return Err(FormError::EmptyGroupId),
    };
    Ok((f, g))
}

} // verus!
