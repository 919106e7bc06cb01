//! What the pages show: the account listing and the edit form with its
//! outcome.

use vstd::prelude::*;

use crate::error::{message_of, ValidationError};
use crate::form::UserForm;
use crate::model::User;

verus! {

/// The listing page: every account, in ascending identifier order.
#[derive(Clone, Debug)]
pub struct UsersTemplate {
    pub users: Vec<(String, User)>,
}

/// The edit page: the form, with a success note or an error message.
#[derive(Clone, Debug)]
pub struct EditUserTemplate {
    pub success: Option<String>,
    pub error: Option<String>,
    pub form: UserForm,
}

impl EditUserTemplate {
    /// The page for editing `form`, with no outcome yet.
    pub fn editing(form: UserForm) -> (r: EditUserTemplate)
        ensures
            r.success is None,
            r.error is None,
            r.form == form,
    {
        EditUserTemplate { success: None, error: None, form }
    }

    /// The page after `form` was refused: the form as submitted, with the
    /// reason.
    pub fn refused(form: UserForm, e: ValidationError) -> (r: EditUserTemplate)
        ensures
            r.success is None,
            r.error matches Some(m) && m@ == message_of(e),
            r.form == form,
    {
        EditUserTemplate { success: None, error: Some(e.message()), form }
    }

    /// The page after `form` was saved.
    pub fn saved(form: UserForm) -> (r: EditUserTemplate)
        ensures
            r.success matches Some(m) && m@ == "User saved."@,
            r.error is None,
            r.form == form,
    {
        EditUserTemplate { success: Some("User saved.".to_owned()), error: None, form }
    }
}

} // verus!
