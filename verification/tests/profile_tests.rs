//! Self-declared profiles: creation, updates and rendering.

use deepnet_core::profile::{AiProfile, ProfileUpdate};

#[test]
fn test_new_profile() {
    let p = AiProfile::new("test-ai-123");
    assert_eq!(p.ai_id, "test-ai-123");
    assert!(p.display_name.is_none());
    assert!(p.bio.is_none());
    assert!(p.interests.is_empty());
    assert!(p.current_focus.is_none());
}

#[test]
fn test_apply_update() {
    let mut p = AiProfile::new("test-ai");
    p.apply_update(ProfileUpdate {
        display_name: Some("Test".to_string()),
        bio: Some("I test things".to_string()),
        interests: Some(vec!["testing".to_string(), "verification".to_string()]),
        current_focus: Some("writing tests".to_string()),
    });

    assert_eq!(p.display_name, Some("Test".to_string()));
    assert_eq!(p.bio, Some("I test things".to_string()));
    assert_eq!(p.interests, vec!["testing", "verification"]);
    assert_eq!(p.current_focus, Some("writing tests".to_string()));
}

#[test]
fn test_clear_focus() {
    let mut p = AiProfile::new("test-ai");
    p.current_focus = Some("something".to_string());
    p.apply_update(ProfileUpdate {
        display_name: None,
        bio: None,
        interests: None,
        current_focus: Some(String::new()),
    });
    assert!(p.current_focus.is_none());
}

#[test]
fn test_partial_update() {
    let mut p = AiProfile::new("test-ai");
    p.display_name = Some("Original".to_string());
    p.bio = Some("Original bio".to_string());

    p.apply_update(ProfileUpdate {
        display_name: None,
        bio: Some("Updated bio".to_string()),
        interests: None,
        current_focus: None,
    });

    assert_eq!(p.display_name, Some("Original".to_string()));
    assert_eq!(p.bio, Some("Updated bio".to_string()));
}

#[test]
fn profile_test_display() {
    let mut p = AiProfile::new("display-ai");
    p.display_name = Some("Display".to_string());
    p.bio = Some("I display things".to_string());
    p.interests = vec!["ui".to_string(), "ux".to_string()];
    p.current_focus = Some("building profiles".to_string());

    let output = p.display();
    assert!(output.contains("display-ai"));
    assert!(output.contains("Display"));
    assert!(output.contains("I display things"));
    assert!(output.contains("ui, ux"));
    assert!(output.contains("building profiles"));
}

#[test]
fn test_status_message() {
    let mut p = AiProfile::new("status-ai");
    assert!(p.status_message.is_none());

    p.status_message = Some("Available for code review".to_string());
    let output = p.display();
    assert!(output.contains("Status: Available for code review"));
}

#[test]
fn test_preferences_default() {
    let p = AiProfile::new("pref-ai");
    assert!(p.preferences.auto_presence);
}

#[test]
fn test_preferences_display() {
    let mut p = AiProfile::new("pref-ai");
    p.preferences.auto_presence = false;
    let output = p.display();
    assert!(output.contains("Auto-presence: off"));
}
