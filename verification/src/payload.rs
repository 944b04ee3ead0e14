//! The request payloads of the four operations and their input validation:
//! username length, email shape, password length and a required special
//! character. Validation reports field-level errors and passes exactly the
//! inputs the service is specified to accept.
use vstd::prelude::*;

use crate::password::hashed_from;
use crate::store::{is_uuid_string, uuid_new_string, User};
use validator::ValidateEmail;
use vstd::string::StrSliceExecFns;
use vstd::string::StringExecFns;

verus! {

/// A field-level validation failure: which field, and why.
#[derive(Debug)]
pub struct FieldError {
    pub field: String,
    pub message: String,
}

/// A coded validation failure, as the password rule reports it.
pub struct ValidationError {
    pub code: String,
    pub message: String,
}

/// A username is long enough: at least three characters.
pub open spec fn username_valid(s: Seq<char>) -> bool {
    s.len() >= 3
}

/// Whether the validator crate accepts the string as an email address
/// (HTML5 rules). A pure function of the characters.
pub uninterp spec fn email_valid(s: Seq<char>) -> bool;

/// Relies on `validator::ValidateEmail::validate_email` for `String`: the
/// HTML5 email shape check, a pure function of the string.
#[verifier::external_body]
fn check_email(s: &String) -> (r: bool)
    ensures
        r == email_valid(s@),
{
    s.validate_email()
}

/// The characters of which a password must contain at least one.
pub open spec fn is_special_char(c: char) -> bool {
    c == '!' || c == '@' || c == '#' || c == '$' || c == '%' || c == '^' || c == '&' || c == '*'
        || c == '(' || c == ')' || c == ',' || c == '.' || c == '?' || c == ':' || c == '{'
        || c == '}' || c == '|' || c == '<' || c == '>' || c == '\''
}

pub open spec fn has_special_char(s: Seq<char>) -> bool {
    exists|i: int| 0 <= i < s.len() && is_special_char(#[trigger] s[i])
}

/// A password is long enough: at least eight characters.
pub open spec fn password_len_valid(s: Seq<char>) -> bool {
    s.len() >= 8
}

/// A password passes both rules: length, and a special character.
pub open spec fn password_valid(s: Seq<char>) -> bool {
    password_len_valid(s) && has_special_char(s)
}

fn exec_is_special_char(c: char) -> (r: bool)
    ensures
        r == is_special_char(c),
{
    c == '!' || c == '@' || c == '#' || c == '$' || c == '%' || c == '^' || c == '&' || c == '*'
        || c == '(' || c == ')' || c == ',' || c == '.' || c == '?' || c == ':' || c == '{'
        || c == '}' || c == '|' || c == '<' || c == '>' || c == '\''
}

/// Whether the string contains a special character.
fn contains_special(s: &str) -> (r: bool)
    ensures
        r == has_special_char(s@),
{
    let n = s.unicode_len();
    let mut i: usize = 0;
    while i < n
        invariant
            i <= n,
            n == s@.len(),
            forall|j: int| 0 <= j < i ==> !is_special_char(#[trigger] s@[j]),
        decreases n - i,
    {
        let c = s.get_char(i);
        if exec_is_special_char(c) {
            return true;
        }
        i = i + 1;
    }
    false
}

/// Check the special-character rule alone, as a named rule: `Ok` exactly
/// when the password holds at least one special character.
pub fn validate_password(password: &str) -> (r: Result<(), ValidationError>)
    ensures
        r is Ok <==> has_special_char(password@),
        r matches Err(e) ==> e.code@ == "special_char"@ && e.message@
            == "Password must contain at least one special character"@,
{
    if contains_special(password) {
        Ok(())
    } else {
        Err(
            ValidationError {
                code: String::from_str("special_char"),
                message: String::from_str("Password must contain at least one special character"),
            },
        )
    }
}

/// A registration request: the desired username, email and password.
pub struct RegisterPayload {
    pub username: String,
    pub email: String,
    pub password: String,
}

/// A login request.
pub struct LoginPayload {
    pub username: String,
    pub password: String,
}

/// A refresh request: the refresh token presented for rotation.
pub struct RefreshPayload {
    pub refresh_token: String,
}

/// The exact field errors a registration payload earns, in field order:
/// username, email, then each failed password rule.
pub open spec fn spec_register_errors(
    username: Seq<char>,
    email: Seq<char>,
    password: Seq<char>,
) -> Seq<(Seq<char>, Seq<char>)> {
    (if username_valid(username) {
        Seq::<(Seq<char>, Seq<char>)>::empty()
    } else {
        seq![("username"@, "Username must be at least 3 characters long"@)]
    }) + (if email_valid(email) {
        Seq::<(Seq<char>, Seq<char>)>::empty()
    } else {
        seq![("email"@, "Invalid email format"@)]
    }) + (if password_len_valid(password) {
        Seq::<(Seq<char>, Seq<char>)>::empty()
    } else {
        seq![("password"@, "Password must be at least 8 characters long"@)]
    }) + (if has_special_char(password) {
        Seq::<(Seq<char>, Seq<char>)>::empty()
    } else {
        seq![("password"@, "Password must contain at least one special character"@)]
    })
}

/// The view of a list of field errors: each as (field, message).
pub open spec fn field_errors_view(v: Seq<FieldError>) -> Seq<(Seq<char>, Seq<char>)> {
    v.map_values(|e: FieldError| (e.field@, e.message@))
}

impl RegisterPayload {
    /// All three inputs are acceptable.
    pub open spec fn spec_valid(&self) -> bool {
        username_valid(self.username@) && email_valid(self.email@) && password_valid(
            self.password@,
        )
    }

    /// Validate the payload: `Ok` exactly when every field passes, else the
    /// precise list of field errors.
    pub fn validation(&self) -> (r: Result<(), Vec<FieldError>>)
        ensures
            r is Ok <==> self.spec_valid(),
            r matches Err(v) ==> field_errors_view(v@) == spec_register_errors(
                self.username@,
                self.email@,
                self.password@,
            ) && v@.len() >= 1,
    {
        let mut errors: Vec<FieldError> = Vec::new();
        if self.username.as_str().unicode_len() < 3 {
            errors.push(
                FieldError {
                    field: String::from_str("username"),
                    message: String::from_str("Username must be at least 3 characters long"),
                },
            );
        }
        if !check_email(&self.email) {
            errors.push(
                FieldError {
                    field: String::from_str("email"),
                    message: String::from_str("Invalid email format"),
                },
            );
        }
        if self.password.as_str().unicode_len() < 8 {
            errors.push(
                FieldError {
                    field: String::from_str("password"),
                    message: String::from_str("Password must be at least 8 characters long"),
                },
            );
        }
        if !contains_special(self.password.as_str()) {
            errors.push(
                FieldError {
                    field: String::from_str("password"),
                    message: String::from_str(
                        "Password must contain at least one special character",
                    ),
                },
            );
        }
        if errors.len() == 0 {
            proof {
                assert(field_errors_view(errors@) =~= spec_register_errors(
                    self.username@,
                    self.email@,
                    self.password@,
                ));
            }
            Ok(())
        } else {
            proof {
                assert(field_errors_view(errors@) =~= spec_register_errors(
                    self.username@,
                    self.email@,
                    self.password@,
                ));
            }
            Err(errors)
        }
    }
}

impl LoginPayload {
    /// The username is acceptable; a login payload constrains nothing else.
    pub open spec fn spec_valid(&self) -> bool {
        username_valid(self.username@)
    }

    /// Validate the payload: `Ok` exactly when the username is long enough.
    pub fn validate(&self) -> (r: Result<(), Vec<FieldError>>)
        ensures
            r is Ok <==> self.spec_valid(),
            r matches Err(v) ==> v@.len() == 1 && v@[0].field@ == "username"@ && v@[0].message@
                == "Username must be at least 3 characters long"@,
    {
        if self.username.as_str().unicode_len() < 3 {
            let mut errors: Vec<FieldError> = Vec::new();
            errors.push(
                FieldError {
                    field: String::from_str("username"),
                    message: String::from_str("Username must be at least 3 characters long"),
                },
            );
            Err(errors)
        } else {
            Ok(())
        }
    }
}

impl RefreshPayload {
    /// A token was presented at all.
    pub open spec fn spec_valid(&self) -> bool {
        self.refresh_token@.len() >= 1
    }

    /// Validate the payload: `Ok` exactly when the token is non-empty.
    pub fn validate(&self) -> (r: Result<(), Vec<FieldError>>)
        ensures
            r is Ok <==> self.spec_valid(),
            r matches Err(v) ==> v@.len() == 1 && v@[0].field@ == "refresh_token"@ && v@[0].message@
                == "Refresh token must be provider"@,
    {
        if self.refresh_token.as_str().unicode_len() < 1 {
            let mut errors: Vec<FieldError> = Vec::new();
            errors.push(
                FieldError {
                    field: String::from_str("refresh_token"),
                    message: String::from_str("Refresh token must be provider"),
                },
            );
            Err(errors)
        } else {
            Ok(())
        }
    }
}

impl User {
    /// Build a fresh identity from a registration payload: a new random id,
    /// the given username and email, and the password replaced by its hash.
    /// Fails only when the hasher itself fails.
    pub fn try_from(payload: RegisterPayload) -> (r: Result<User, String>)
        ensures
            r matches Ok(u) ==> is_uuid_string(u.id@) && u.username@ == payload.username@
                && u.email@ == payload.email@ && hashed_from(u.password_hash@, payload.password@),
            r matches Err(m) ==> m@ == "Failed to hash password"@,
    {
        let password_hash = match crate::password::hash(&payload.password) {
            Ok(h) => h,
            Err(_) => {
                return Err(String::from_str("Failed to hash password"));
            },
        };
        Ok(
            User {
                id: uuid_new_string(),
                username: payload.username,
                email: payload.email,
                password_hash,
            },
        )
    }
}

} // verus!
