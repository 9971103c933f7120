use sprite_atlas::info::{config_field, configurables, get_bool, ConfigField};

#[test]
fn bool_words() {
    for w in ["true", "TRUE", "Yes", "y", "Y"] {
        assert_eq!(get_bool(w), Some(true), "{}", w);
    }
    for w in ["false", "False", "NO", "n"] {
        assert_eq!(get_bool(w), Some(false), "{}", w);
    }
    for w in ["", "t", "yess", "1", "nope", " yes"] {
        assert_eq!(get_bool(w), None, "{}", w);
    }
}

#[test]
fn fields_by_name() {
    assert_eq!(config_field("sdk-path"), Some(ConfigField::SdkPath));
    assert_eq!(config_field("sdk-nightly"), Some(ConfigField::SdkNightly));
    assert_eq!(config_field("default-developer"), Some(ConfigField::DefaultDeveloper));
    assert_eq!(config_field("SDK-PATH"), None);
    assert_eq!(configurables(), vec!["default-developer", "sdk-path", "sdk-nightly"]);
}
