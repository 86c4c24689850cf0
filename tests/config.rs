use nanobanana::config::{mask_key, status_of, ConfigError, ConfigStore};

#[test]
fn saving_bad_key_keeps_previous_key() {
    let mut c = ConfigStore::new(None);
    c.save_config("AIzaSy1234567890".to_string()).unwrap();
    assert_eq!(c.save_config("sk-1234567890".to_string()), Err(ConfigError::InvalidKey));
    assert_eq!(c.get_api_key().unwrap(), "AIzaSy1234567890");
}

#[test]
fn saved_key_is_masked() {
    let mut c = ConfigStore::new(None);
    c.save_config("AIzaSy1234567890".to_string()).unwrap();
    let st = c.get_config();
    assert!(st.has_key);
    assert_eq!(st.masked.as_deref(), Some("AI...890"));
}

#[test]
fn short_key_is_fully_masked() {
    let mut c = ConfigStore::new(None);
    c.save_config("AIabc".to_string()).unwrap();
    let st = c.get_config();
    assert!(st.has_key);
    assert_eq!(st.masked.as_deref(), Some("****"));
}

#[test]
fn deleted_key_shows_nothing() {
    let mut c = ConfigStore::new(Some("AIzaSy1234567890".to_string()));
    c.delete_config();
    let st = c.get_config();
    assert!(!st.has_key);
    assert!(st.masked.is_none());
    assert_eq!(c.get_api_key(), Err(ConfigError::NotConfigured));
    c.delete_config();
    assert!(!c.get_config().has_key);
}

#[test]
fn mask_boundary_at_eight_characters() {
    assert_eq!(mask_key("AI345678"), "****");
    assert_eq!(mask_key("AI3456789"), "AI...789");
    assert_eq!(mask_key(""), "****");
}

#[test]
fn empty_stored_key_counts_as_absent() {
    let st = status_of(&Some(String::new()));
    assert!(!st.has_key);
    assert!(st.masked.is_none());
}

#[test]
fn key_prefix_is_case_sensitive() {
    let mut c = ConfigStore::new(None);
    assert_eq!(c.save_config("aizaSy1234567890".to_string()), Err(ConfigError::InvalidKey));
    assert_eq!(c.save_config("A".to_string()), Err(ConfigError::InvalidKey));
    assert_eq!(c.save_config("AI".to_string()), Ok(()));
}

#[test]
fn config_error_messages() {
    assert_eq!(ConfigError::NotConfigured.message(), "API key not configured");
    assert!(!ConfigError::InvalidKey.message().contains("AIza"));
}
