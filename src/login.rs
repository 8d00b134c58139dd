//! The login handshake of a gated provider: a pre-login request returns a JSON
//! object naming a one-time form field and its value; the login form carries the
//! credentials and that field.

use vstd::prelude::*;
use crate::text::{chars_of, string_from_chars};

verus! {

/// `None` if `text` does not parse as JSON; else the string member `key` of the
/// parsed value, if that member exists and is a string.
pub uninterp spec fn json_string_member(text: Seq<char>, key: Seq<char>) -> Option<
    Option<Seq<char>>,
>;

/// Relies on serde_json's `from_str::<Value>`, `Value::get` and `Value::as_str`:
/// `None` when the text does not parse, else the string member `key`, if any.
#[verifier::external_body]
fn json_string_field(text: &str, key: &str) -> (r: Option<Option<String>>)
    ensures
        r.deep_view() == json_string_member(text@, key@),
{
    match serde_json::from_str::<serde_json::Value>(text) {
        Ok(v) => Some(v.get(key).and_then(|m| m.as_str()).map(String::from)),
        Err(_) => None,
    }
}

pub enum LoginError {
    /// The token response is not JSON.
    InvalidResponse,
    /// The token response has no string member `field`.
    NoField,
    /// The token response has no string member `value`.
    NoValue,
}

/// The form fields of the login request, in order.
pub open spec fn login_fields(
    username: Seq<char>,
    password: Seq<char>,
    field: Seq<char>,
    value: Seq<char>,
) -> Seq<(Seq<char>, Seq<char>)> {
    seq![
        ("login_name"@, username),
        ("login_password"@, password),
        ("login"@, "submit"@),
        (field, value),
    ]
}

fn owned(s: &str) -> (r: String)
    ensures
        r@ == s@,
{
    string_from_chars(&chars_of(s))
}

pub open spec fn form_result_matches(
    r: Result<Vec<(String, String)>, LoginError>,
    field: Option<Seq<char>>,
    value: Option<Seq<char>>,
    username: Seq<char>,
    password: Seq<char>,
) -> bool {
    match (field, value) {
        (None, _) => r is Err && r->Err_0 is NoField,
        (Some(_), None) => r is Err && r->Err_0 is NoValue,
        (Some(f), Some(v)) => r is Ok && r->Ok_0.deep_view() == login_fields(username, password, f, v),
    }
}

/// Builds the login form from the token members `field` and `value`, as read
/// from the pre-login response.
pub fn login_form_from_members(
    field: Option<String>,
    value: Option<String>,
    username: &str,
    password: &str,
) -> (r: Result<Vec<(String, String)>, LoginError>)
    ensures
        form_result_matches(r, field.deep_view(), value.deep_view(), username@, password@),
{
    let field = match field {
        Some(f) => f,
        None => return Err(LoginError::NoField),
    };
    let value = match value {
        Some(v) => v,
        None => return Err(LoginError::NoValue),
    };
    let mut form: Vec<(String, String)> = Vec::new();
    form.push((owned("login_name"), owned(username)));
    form.push((owned("login_password"), owned(password)));
    form.push((owned("login"), owned("submit")));
    form.push((field, value));
    proof {
        assert(form.deep_view() =~= login_fields(username@, password@, field@, value@));
    }
    Ok(form)
}

/// Builds the login form from the pre-login token response.
pub fn login_form(token_response: &str, username: &str, password: &str) -> (r: Result<
    Vec<(String, String)>,
    LoginError,
>)
    ensures
        match (
            json_string_member(token_response@, "field"@),
            json_string_member(token_response@, "value"@),
        ) {
            (Some(f), Some(v)) => form_result_matches(r, f, v, username@, password@),
            _ => r is Err && r->Err_0 is InvalidResponse,
        },
{
    let field = match json_string_field(token_response, "field") {
        Some(f) => f,
        None => return Err(LoginError::InvalidResponse),
    };
    let value = match json_string_field(token_response, "value") {
        Some(v) => v,
        None => return Err(LoginError::InvalidResponse),
    };
    login_form_from_members(field, value, username, password)
}

} // verus!
