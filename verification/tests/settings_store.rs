use enigma2_player_core::settings::store::{
    settings_after_load, settings_path_from, validate_box_url, validate_settings, AppSettings, BOX_URL_SCHEME_ERROR,
};

#[test]
fn validate_box_url_accepts_http_and_https_urls() {
    assert_eq!(
        validate_box_url(" http://receiver.local/ ").unwrap(),
        "http://receiver.local"
    );
    assert_eq!(
        validate_box_url("https://receiver.local/").unwrap(),
        "https://receiver.local"
    );
}

#[test]
fn validate_box_url_rejects_empty_and_scheme_less_urls() {
    assert_eq!(validate_box_url("").unwrap_err(), BOX_URL_SCHEME_ERROR);
    assert_eq!(
        validate_box_url("receiver.local").unwrap_err(),
        BOX_URL_SCHEME_ERROR
    );
}

#[test]
fn validate_settings_keeps_hwdec_and_normalizes_the_url() {
    let settings = AppSettings {
        box_url: "http://receiver.local/".to_string(),
        hwdec: false,
    };
    assert_eq!(
        validate_settings(&settings).unwrap(),
        AppSettings {
            box_url: "http://receiver.local".to_string(),
            hwdec: false,
        }
    );
    let bad = AppSettings {
        box_url: "receiver.local".to_string(),
        hwdec: true,
    };
    assert_eq!(validate_settings(&bad).unwrap_err(), BOX_URL_SCHEME_ERROR);
}

#[test]
fn settings_after_load_falls_back_to_defaults() {
    assert_eq!(settings_after_load(None), AppSettings::default());
    assert_eq!(
        settings_after_load(Some(AppSettings {
            box_url: "receiver.local".to_string(),
            hwdec: false,
        })),
        AppSettings::default()
    );
    assert_eq!(
        settings_after_load(Some(AppSettings {
            box_url: " http://receiver.local/ ".to_string(),
            hwdec: false,
        })),
        AppSettings {
            box_url: "http://receiver.local".to_string(),
            hwdec: false,
        }
    );
    assert_eq!(
        settings_after_load(Some(AppSettings {
            box_url: "  ".to_string(),
            hwdec: false,
        })),
        AppSettings {
            box_url: String::new(),
            hwdec: false,
        }
    );
}

#[test]
fn default_settings_have_no_receiver_and_hardware_decoding() {
    let settings = AppSettings::default();
    assert_eq!(settings.box_url, "");
    assert!(settings.hwdec);
    assert_eq!(settings.clone().normalized(), settings);
}

#[test]
fn validating_a_validated_url_gives_it_back() {
    let once = validate_box_url("  https://receiver.local///  ").unwrap();
    assert_eq!(once, "https://receiver.local");
    assert_eq!(validate_box_url(&once).unwrap(), once);
}

#[test]
fn settings_path_prefers_xdg_config_home_then_home() {
    assert_eq!(
        settings_path_from(Some("/xdg"), Some("/home/u")),
        "/xdg/enigma2-player/settings.json"
    );
    assert_eq!(
        settings_path_from(None, Some("/home/u")),
        "/home/u/.config/enigma2-player/settings.json"
    );
    assert_eq!(
        settings_path_from(None, None),
        "./enigma2-player/settings.json"
    );
}
