use vek_torrents::login::{login_form, LoginError};

#[test]
fn login_form_carries_credentials_and_token_field() {
    let form = login_form(r#"{"field":"a1b2","value":"xyz"}"#, "user", "pass").ok().unwrap();
    let got: Vec<(&str, &str)> = form.iter().map(|(k, v)| (k.as_str(), v.as_str())).collect();
    assert_eq!(
        got,
        vec![("login_name", "user"), ("login_password", "pass"), ("login", "submit"), ("a1b2", "xyz")]
    );
}

#[test]
fn missing_token_members_are_errors() {
    assert!(matches!(login_form(r#"{"value":"xyz"}"#, "u", "p"), Err(LoginError::NoField)));
    assert!(matches!(login_form(r#"{"field":"f"}"#, "u", "p"), Err(LoginError::NoValue)));
    assert!(matches!(login_form(r#"{"field":1,"value":"v"}"#, "u", "p"), Err(LoginError::NoField)));
    assert!(matches!(login_form("not json", "u", "p"), Err(LoginError::InvalidResponse)));
    assert!(matches!(login_form("", "u", "p"), Err(LoginError::InvalidResponse)));
    assert!(matches!(login_form("[1, 2]", "u", "p"), Err(LoginError::NoField)));
}

use vek_torrents::login::login_form_from_members;

#[test]
fn form_from_members_reports_the_first_missing_member() {
    assert!(matches!(login_form_from_members(None, None, "u", "p"), Err(LoginError::NoField)));
    assert!(matches!(
        login_form_from_members(None, Some("v".to_string()), "u", "p"),
        Err(LoginError::NoField)
    ));
    assert!(matches!(
        login_form_from_members(Some("f".to_string()), None, "u", "p"),
        Err(LoginError::NoValue)
    ));
    let form = login_form_from_members(Some("f".to_string()), Some("v".to_string()), "u", "p")
        .ok()
        .unwrap();
    assert_eq!(form.len(), 4);
    assert_eq!(form[3], ("f".to_string(), "v".to_string()));
    assert_eq!(form[0], ("login_name".to_string(), "u".to_string()));
}
