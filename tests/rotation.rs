use vek_torrents::rotation::{api_key_from_page, KeyRotation, Outcome, RotationAction};

fn call_key(a: &RotationAction) -> Option<String> {
    match a {
        RotationAction::Call(k) => Some(k.clone()),
        _ => None,
    }
}

#[test]
fn unauthorized_then_success_refreshes_once_and_retries_once() {
    let mut r = KeyRotation::new("old".to_string());
    let a = r.start();
    assert_eq!(call_key(&a), Some("old".to_string()));
    let a = r.on_outcome(Outcome::Unauthorized);
    assert!(matches!(a, RotationAction::RefreshKey));
    let a = r.on_refreshed(Some("new".to_string()));
    assert_eq!(call_key(&a), Some("new".to_string()));
    let a = r.on_outcome(Outcome::Success);
    assert!(matches!(a, RotationAction::Finish));
    assert_eq!(r.refreshes(), 1);
    assert_eq!(r.calls(), 2);
    assert_eq!(r.key(), "new");
}

#[test]
fn success_on_first_call_needs_no_refresh() {
    let mut r = KeyRotation::new("k".to_string());
    r.start();
    assert!(matches!(r.on_outcome(Outcome::Success), RotationAction::Finish));
    assert_eq!(r.refreshes(), 0);
    assert_eq!(r.calls(), 1);
}

#[test]
fn other_failures_are_not_retried() {
    let mut r = KeyRotation::new("k".to_string());
    r.start();
    assert!(matches!(r.on_outcome(Outcome::Failed), RotationAction::Finish));
    assert_eq!(r.calls(), 1);
}

#[test]
fn failed_retry_is_propagated_without_more_attempts() {
    let mut r = KeyRotation::new("k".to_string());
    r.start();
    r.on_outcome(Outcome::Unauthorized);
    r.on_refreshed(Some("k2".to_string()));
    assert!(matches!(r.on_outcome(Outcome::Unauthorized), RotationAction::Finish));
    assert_eq!(r.refreshes(), 1);
    assert_eq!(r.calls(), 2);
}

#[test]
fn failed_refresh_retries_with_the_old_key() {
    let mut r = KeyRotation::new("k".to_string());
    r.start();
    r.on_outcome(Outcome::Unauthorized);
    let a = r.on_refreshed(None);
    assert_eq!(call_key(&a), Some("k".to_string()));
}

#[test]
fn api_key_is_captured_from_the_page() {
    let page = r#"<script>window.CLIENT={"x":1,"rawgApiKey":"c542e67aec3a4340908f9de9e86038af","y":"z"}</script>"#;
    assert_eq!(api_key_from_page(page), Some("c542e67aec3a4340908f9de9e86038af".to_string()));
    assert_eq!(api_key_from_page("no key here"), None);
    assert_eq!(api_key_from_page(r#""rawgApiKey":"""#), None);
    assert_eq!(api_key_from_page(r#""rawgApiKey":"ab-c""#), None);
    assert_eq!(
        api_key_from_page(r#""rawgApiKey":"bad!" "rawgApiKey":"Good1""#),
        Some("Good1".to_string())
    );
}
