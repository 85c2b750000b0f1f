use enigma2_player_core::app::{parse_args, quote_desktop_path, startup_plan};
use enigma2_player_core::settings::store::{AppSettings, BOX_URL_SCHEME_ERROR};

fn args(values: &[&str]) -> Vec<String> {
    values.iter().map(|value| value.to_string()).collect()
}

#[test]
fn desktop_quotes_desktop_exec_paths() {
    assert_eq!(
        quote_desktop_path("/tmp/enigma2 player/$bin"),
        r#""/tmp/enigma2 player/\$bin""#
    );
}

#[test]
fn app_quotes_desktop_exec_paths() {
    assert_eq!(
        quote_desktop_path("/tmp/enigma2 player/$bin"),
        r#""/tmp/enigma2 player/\$bin""#
    );
}

#[test]
fn main_parses_launch_flags() {
    let options = parse_args(args(&["--show-picker", "--start-first"]));
    assert!(options.show_picker);
    assert!(options.start_first);
}

#[test]
fn app_parses_launch_flags() {
    let options = parse_args(args(&["--show-picker", "--start-first"]));
    assert!(options.show_picker);
    assert!(options.start_first);
}

#[test]
fn main_parses_box_url_flag_forms() {
    let options = parse_args(args(&["--box-url", "receiver.local"]));
    assert_eq!(options.box_url.as_deref(), Some("receiver.local"));

    let options = parse_args(args(&["--box-url=http://receiver.local"]));
    assert_eq!(options.box_url.as_deref(), Some("http://receiver.local"));
}

#[test]
fn app_parses_box_url_flag_forms() {
    let options = parse_args(args(&["--box-url", "receiver.local"]));
    assert_eq!(options.box_url.as_deref(), Some("receiver.local"));

    let options = parse_args(args(&["--box-url=http://receiver.local"]));
    assert_eq!(options.box_url.as_deref(), Some("http://receiver.local"));
}

#[test]
fn parse_args_keeps_the_last_box_url_and_skips_unknown_arguments() {
    let options = parse_args(args(&[
        "--box-url=http://first.local",
        "--verbose",
        "--box-url",
        "http://second.local",
    ]));
    assert_eq!(options.box_url.as_deref(), Some("http://second.local"));
    assert!(!options.show_picker);
    assert!(!options.start_first);
}

#[test]
fn parse_args_ignores_a_trailing_box_url_flag() {
    let options = parse_args(args(&["--start-first", "--box-url"]));
    assert!(options.start_first);
    assert_eq!(options.box_url, None);
}

#[test]
fn parse_args_without_arguments_sets_nothing() {
    let options = parse_args(Vec::new());
    assert!(!options.show_picker);
    assert!(!options.start_first);
    assert_eq!(options.box_url, None);
}

#[test]
fn quote_desktop_path_escapes_quotes_backslashes_and_backticks() {
    assert_eq!(quote_desktop_path(r#"a"b\c`d"#), r#""a\"b\\c\`d""#);
    assert_eq!(quote_desktop_path(""), r#""""#);
}

#[test]
fn desktop_entry_names_the_program_and_icon() {
    let entry = enigma2_player_core::app::desktop::desktop_entry(
        "/usr/bin/enigma2 player",
        "/icons/local.enigma2-player.svg",
    );
    assert_eq!(
        entry,
        "[Desktop Entry]\nType=Application\nName=Enigma2 Player\nComment=Watch Dreambox and Enigma2 TV streams with mpv\nExec=\"/usr/bin/enigma2 player\"\nIcon=/icons/local.enigma2-player.svg\nTerminal=false\nCategories=AudioVideo;Video;Player;TV;\nStartupNotify=true\nStartupWMClass=local.enigma2-player\n"
    );
}

fn stored(box_url: &str) -> AppSettings {
    AppSettings {
        box_url: box_url.to_string(),
        hwdec: false,
    }
}

#[test]
fn startup_plan_takes_a_valid_box_url_for_this_session() {
    let options = parse_args(args(&["--box-url", " http://other.local/ ", "--show-picker"]));
    let plan = startup_plan(stored("http://receiver.local"), &options);
    assert_eq!(plan.settings.box_url, "http://other.local");
    assert!(!plan.settings.hwdec);
    assert!(plan.warning.is_none());
    assert!(!plan.open_settings);
    assert!(plan.show_picker);
    assert!(!plan.start_first);
}

#[test]
fn startup_plan_warns_about_a_refused_box_url_and_keeps_the_stored_one() {
    let options = parse_args(args(&["--box-url=ftp://receiver", "--start-first"]));
    let plan = startup_plan(stored("http://receiver.local"), &options);
    assert_eq!(plan.settings.box_url, "http://receiver.local");
    assert_eq!(plan.warning.as_deref(), Some(BOX_URL_SCHEME_ERROR));
    assert!(!plan.open_settings);
    assert!(plan.start_first);
}

#[test]
fn startup_plan_opens_the_settings_first_without_a_receiver() {
    let options = parse_args(args(&["--show-picker", "--start-first"]));
    let plan = startup_plan(stored("  "), &options);
    assert!(plan.open_settings);
    assert!(!plan.show_picker);
    assert!(!plan.start_first);
    assert!(plan.warning.is_none());
}
