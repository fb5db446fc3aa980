use wharf::config::{default_registry_name, default_true, DEFAULT_CONFIG_FILE};

#[test]
fn configuration_defaults() {
    assert_eq!(default_registry_name(), "dockerhub");
    assert!(default_true());
    assert_eq!(DEFAULT_CONFIG_FILE, "config/default");
}
