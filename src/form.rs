//! The account edit request: its validation rules and its conversions to and
//! from stored accounts.

use vstd::prelude::*;

use crate::credential::{
    draw_salt, fresh_credential, hash_password, hash_under, hash_with_salt, password_fits,
    valid_salt,
};
use crate::error::{message_of, DirectoryError, ValidationError};
use crate::model::{credentials_valid, lookup, storable, User, UserDatabase, UserView};
use crate::text::{is_word, join_spaced, join_words, lemma_split_join, split_words, split_ws};

verus! {

/// The unvalidated input for creating or updating an account.
#[derive(Clone, Debug)]
pub struct UserForm {
    pub name: String,
    pub disabled: Option<String>,
    pub displayname: String,
    pub email: String,
    pub password: String,
    pub confirm_password: String,
    pub groups: String,
}

/// The first validation rule that the request breaks, checked in order:
/// identifier, display name, password, then confirmation.
pub open spec fn first_problem(f: UserForm) -> Option<ValidationError> {
    if f.name@.len() == 0 {
        Some(ValidationError::MissingName)
    } else if f.displayname@.len() == 0 {
        Some(ValidationError::MissingDisplayName)
    } else if f.password@.len() == 0 {
        Some(ValidationError::MissingPassword)
    } else if f.password@ != f.confirm_password@ {
        Some(ValidationError::PasswordMismatch)
    } else {
        None
    }
}

/// `u` carries the request's flag, display name and email, and the words of
/// its groups field as groups.
pub open spec fn same_fields(u: UserView, f: UserForm) -> bool {
    &&& u.disabled == f.disabled is Some
    &&& u.displayname == f.displayname@
    &&& u.email == f.email@
    &&& u.groups == split_ws(f.groups@)
}

/// `u` is the account that the request describes: its fields are the
/// request's, and its credential is a fresh Argon2id hash with this library's
/// costs that verifies against the request's password.
pub open spec fn built_from(u: UserView, f: UserForm) -> bool {
    &&& same_fields(u, f)
    &&& fresh_credential(f.password@, u.password)
}

/// `f` is the edit form of the account `u`: no identifier, no password, the
/// flag as the checkbox value `"disabled"`, and the groups joined by single
/// spaces.
pub open spec fn shows_account(f: UserForm, u: UserView) -> bool {
    &&& f.name@ == Seq::<char>::empty()
    &&& f.disabled is Some == u.disabled
    &&& f.disabled matches Some(d) ==> d@ == "disabled"@
    &&& f.displayname@ == u.displayname
    &&& f.email@ == u.email
    &&& f.password@ == Seq::<char>::empty()
    &&& f.confirm_password@ == Seq::<char>::empty()
    &&& f.groups@ == join_spaced(u.groups)
}

impl UserForm {
    /// The first broken validation rule, if any.
    pub fn problem(&self) -> (r: Option<ValidationError>)
        ensures
            r == first_problem(*self),
    {
        if self.name.as_str().is_empty() {
            return Some(ValidationError::MissingName);
        }
        if self.displayname.as_str().is_empty() {
            return Some(ValidationError::MissingDisplayName);
        }
        if self.password.as_str().is_empty() {
            return Some(ValidationError::MissingPassword);
        }
        if self.password != self.confirm_password {
            return Some(ValidationError::PasswordMismatch);
        }
        None
    }

    /// The message of the first broken validation rule, if any.
    pub fn validate(&self) -> (r: Option<String>)
        ensures
            first_problem(*self) is None ==> r is None,
            first_problem(*self) matches Some(e) ==> r matches Some(m) && m@ == message_of(e),
    {
        match self.problem() {
            Some(e) => Some(e.message()),
            None => None,
        }
    }

    /// The request's password, hashed under a fresh salt.
    pub fn hashed_password(&self) -> (r: Result<String, DirectoryError>)
        ensures
            r matches Ok(h) ==> fresh_credential(self.password@, h@),
            r matches Err(e) ==> e == DirectoryError::HashingFailed,
    {
        hash_password(self.password.as_str())
    }

    /// Validates the request and, when it is valid, builds the account it
    /// describes. A refused request yields its reason and nothing else.
    pub fn to_user(&self) -> (r: Result<User, DirectoryError>)
        ensures
            first_problem(*self) matches Some(e) ==> r == Err::<User, DirectoryError>(
                DirectoryError::ValidationFailed(e),
            ),
            first_problem(*self) is None ==> (r matches Ok(u) ==> built_from(u@, *self)),
            first_problem(*self) is None ==> (r matches Err(e) ==> e
                == DirectoryError::HashingFailed),
    {
        if let Some(e) = self.problem() {
            return Err(DirectoryError::ValidationFailed(e));
        }
        let salt = match draw_salt() {
            Ok(s) => s,
            Err(e) => {
                return Err(e);
            },
        };
        self.to_user_with_salt(salt.as_str())
    }

    /// Validates the request and builds the account it describes, hashing
    /// its password under `salt`. A valid request with a well-formed salt and
    /// a password that fits always yields its account.
    pub fn to_user_with_salt(&self, salt: &str) -> (r: Result<User, DirectoryError>)
        ensures
            first_problem(*self) matches Some(e) ==> r == Err::<User, DirectoryError>(
                DirectoryError::ValidationFailed(e),
            ),
            first_problem(*self) is None ==> (r matches Ok(u) ==> same_fields(u@, *self)
                && hash_under(self.password@, salt@, u@.password)),
            first_problem(*self) is None ==> (r matches Err(e) ==> e
                == DirectoryError::HashingFailed),
            first_problem(*self) is None && valid_salt(salt@) && password_fits(self.password@)
                ==> r is Ok,
    {
        match self.problem() {
            Some(e) => Err(DirectoryError::ValidationFailed(e)),
            None => User::from_form_with_salt(self, salt),
        }
    }

    /// The editable form of a stored account: the credential is never shown,
    /// and the groups are joined with single spaces.
    pub fn from_user(user: &User) -> (r: UserForm)
        ensures
            shows_account(r, user@),
    {
        UserForm {
            name: String::new(),
            disabled: if user.disabled {
                Some("disabled".to_owned())
            } else {
                None
            },
            displayname: user.displayname.clone(),
            email: user.email.clone(),
            password: String::new(),
            confirm_password: String::new(),
            groups: join_words(&user.groups),
        }
    }
}

impl User {
    /// The account that an edit request describes, with its password hashed.
    /// No validation happens here.
    /// `HashingFailed` comes only when no salt can be drawn or the password
    /// is too long for Argon2.
    pub fn from_form(form: &UserForm) -> (r: Result<User, DirectoryError>)
        ensures
            r matches Ok(u) ==> built_from(u@, *form),
            r matches Err(e) ==> e == DirectoryError::HashingFailed,
    {
        let salt = match draw_salt() {
            Ok(s) => s,
            Err(e) => {
                return Err(e);
            },
        };
        User::from_form_with_salt(form, salt.as_str())
    }

    /// The account that an edit request describes, with its password hashed
    /// under `salt`. No validation happens here. With a well-formed salt and a
    /// password that fits this always succeeds.
    pub fn from_form_with_salt(form: &UserForm, salt: &str) -> (r: Result<User, DirectoryError>)
        ensures
            r matches Ok(u) ==> same_fields(u@, *form) && hash_under(
                form.password@,
                salt@,
                u@.password,
            ),
            r matches Err(e) ==> e == DirectoryError::HashingFailed,
            valid_salt(salt@) && password_fits(form.password@) ==> r is Ok,
    {
        let password = match hash_with_salt(form.password.as_str(), salt) {
            Ok(h) => h,
            Err(e) => {
                return Err(e);
            },
        };
        let r = Ok(
            User {
                disabled: form.disabled.is_some(),
                displayname: form.displayname.clone(),
                email: form.email.clone(),
                password,
                groups: split_words(form.groups.as_str()),
            },
        );
        r
    }
}

impl UserDatabase {
    /// Applies an edit request: a refused request leaves the directory as it
    /// was; a valid one stores the account it describes at the request's
    /// identifier, replacing any account there, with the password hashed
    /// under `salt`. A valid request with a well-formed salt and a password
    /// that fits is always stored.
    pub fn save_with_salt(&mut self, form: &UserForm, salt: &str) -> (r: Result<(), DirectoryError>)
        requires
            old(self).wf(),
        ensures
            final(self).wf(),
            first_problem(*form) matches Some(e) ==> r == Err::<(), DirectoryError>(
                DirectoryError::ValidationFailed(e),
            ),
            r is Err ==> final(self)@ == old(self)@,
            first_problem(*form) is None ==> (r matches Err(e) ==> e
                == DirectoryError::HashingFailed),
            r is Ok ==> exists|u: UserView|
                same_fields(u, *form) && hash_under(form.password@, salt@, u.password)
                    && final(self)@ == old(self)@.insert(form.name@, u) && #[trigger] storable(u),
            first_problem(*form) is None && valid_salt(salt@) && password_fits(form.password@)
                ==> r is Ok,
            credentials_valid(old(self)@) ==> credentials_valid(final(self)@),
    {
        match form.to_user_with_salt(salt) {
            Ok(u) => {
                let ghost v = u@;
                self.insert(form.name.clone(), u);
                proof {
                    assert(storable(v));
                }
                Ok(())
            },
            Err(e) => Err(e),
        }
    }

    /// Applies an edit request with a freshly drawn salt: a refused request
    /// leaves the directory as it was; a valid one stores the account it
    /// describes at the request's identifier.
    pub fn save(&mut self, form: &UserForm) -> (r: Result<(), DirectoryError>)
        requires
            old(self).wf(),
        ensures
            final(self).wf(),
            first_problem(*form) matches Some(e) ==> r == Err::<(), DirectoryError>(
                DirectoryError::ValidationFailed(e),
            ),
            r is Err ==> final(self)@ == old(self)@,
            first_problem(*form) is None ==> (r matches Err(e) ==> e
                == DirectoryError::HashingFailed),
            r is Ok ==> exists|u: UserView|
                built_from(u, *form) && final(self)@ == old(self)@.insert(form.name@, u)
                    && #[trigger] storable(u),
            credentials_valid(old(self)@) ==> credentials_valid(final(self)@),
    {
        if let Some(e) = form.problem() {
            return Err(DirectoryError::ValidationFailed(e));
        }
        let salt = match draw_salt() {
            Ok(s) => s,
            Err(e) => {
                return Err(e);
            },
        };
        let ghost before = self@;
        let r = self.save_with_salt(form, salt.as_str());
        proof {
            if r is Ok {
                let u = choose|u: UserView|
                    same_fields(u, *form) && hash_under(form.password@, salt@, u.password)
                        && self@ == before.insert(form.name@, u) && #[trigger] storable(u);
                assert(built_from(u, *form));
            }
        }
        r
    }
}

/// Saving the account built from an edit request and reading it back gives
/// that account: its fields are the request's and its credential verifies
/// against the request's password.
pub proof fn lemma_save_then_get(
    m: Map<Seq<char>, UserView>,
    id: Seq<char>,
    u: UserView,
    f: UserForm,
)
    requires
        built_from(u, f),
    ensures
        lookup(m.insert(id, u), id) == u,
        built_from(lookup(m.insert(id, u), id), f),
{
}

/// An account whose groups are words, shown as an edit form and built back
/// from it, keeps its flag, display name, email and groups.
pub proof fn lemma_account_form_account(u: UserView, f: UserForm, back: UserView)
    requires
        forall|i: int| 0 <= i < u.groups.len() ==> is_word(#[trigger] u.groups[i]),
        shows_account(f, u),
        same_fields(back, f),
    ensures
        back.disabled == u.disabled,
        back.displayname == u.displayname,
        back.email == u.email,
        back.groups == u.groups,
{
    lemma_split_join(u.groups);
}

} // verus!
