use enigma2_player_core::enigma2::model::EpgEvent;
use enigma2_player_core::ui::epg_overlay::{
    epg_body_layout_width, epg_heading, epg_list_width, epg_panel_width, event_channel_name,
    event_detail_time, event_display_title, event_row_markup, event_row_meta_text,
    events_from_current_onward, events_from_current_onward_at, first_meaningful_line,
    EPG_MAX_EVENTS, EPG_OVERLAY_MAX_WIDTH,
};

#[test]
fn events_from_current_onward_starts_with_current_event() {
    let events = events_from_current_onward(vec![
        event("Later", 240, 60, 150),
        event("Current", 100, 80, 150),
        event("Past", 10, 50, 150),
    ]);

    let titles = events
        .iter()
        .map(|event| event.title.as_str())
        .collect::<Vec<_>>();
    assert_eq!(titles, ["Current", "Later"]);
}

#[test]
fn events_from_current_onward_uses_next_event_when_current_is_missing() {
    let events = events_from_current_onward(vec![
        event("Past", 10, 50, 150),
        event("Next", 180, 60, 150),
        event("Later", 240, 60, 150),
    ]);

    let titles = events
        .iter()
        .map(|event| event.title.as_str())
        .collect::<Vec<_>>();
    assert_eq!(titles, ["Next", "Later"]);
}

#[test]
fn epg_panel_width_caps_at_initial_overlay_width() {
    assert_eq!(epg_panel_width(1280), EPG_OVERLAY_MAX_WIDTH);
    assert_eq!(epg_panel_width(1920), EPG_OVERLAY_MAX_WIDTH);
}

#[test]
fn epg_panel_width_shrinks_with_smaller_windows() {
    assert_eq!(epg_panel_width(800), 764);
    assert_eq!(epg_panel_width(20), 1);
}

#[test]
fn epg_body_layout_width_uses_panel_width_before_body_allocation() {
    assert_eq!(epg_body_layout_width(0, 1920), EPG_OVERLAY_MAX_WIDTH);
    assert_eq!(epg_body_layout_width(0, 800), 764);
}

#[test]
fn events_from_current_onward_limits_events() {
    let events = (0..80)
        .map(|index| event(&format!("Event {index}"), index * 60, 60, 1))
        .collect::<Vec<_>>();

    assert_eq!(events_from_current_onward(events).len(), EPG_MAX_EVENTS);
}

#[test]
fn events_from_current_onward_at_uses_the_given_time_without_receiver_time() {
    let events = vec![
        event("B", 200, 100, 0),
        event("A", 100, 100, 0),
        event("C", 300, 100, 0),
    ];
    let titles = events_from_current_onward_at(events, 250)
        .iter()
        .map(|event| event.title.clone())
        .collect::<Vec<_>>();
    assert_eq!(titles, ["B", "C"]);
}

#[test]
fn events_from_current_onward_keeps_everything_when_all_events_are_over() {
    let events = vec![event("A", 100, 10, 1000), event("B", 50, 10, 1000)];
    let titles = events_from_current_onward(events)
        .iter()
        .map(|event| event.title.clone())
        .collect::<Vec<_>>();
    assert_eq!(titles, ["B", "A"]);
}

#[test]
fn events_from_current_onward_of_nothing_is_nothing() {
    assert!(events_from_current_onward(Vec::new()).is_empty());
}

#[test]
fn epg_body_layout_width_never_exceeds_the_panel() {
    assert_eq!(epg_body_layout_width(2000, 800), 764);
    assert_eq!(epg_body_layout_width(500, 800), 500);
    assert_eq!(epg_list_width(1000), 480);
}

#[test]
fn event_texts_for_rows_and_detail() {
    let mut e = event("  Tagesschau ", 3600, 900, 0);
    e.shortdesc = "Tagesschau\nNachrichten".to_string();
    assert_eq!(event_display_title(&e), "Tagesschau");
    assert_eq!(event_display_title(&event("   ", 0, 0, 0)), "Untitled EPG event");
    assert_eq!(event_row_meta_text(&e), "Nachrichten");
    e.genre = " News ".to_string();
    assert_eq!(event_row_meta_text(&e), "News");
    assert_eq!(event_row_meta_text(&event("X", 0, 0, 0)), "-");
    assert_eq!(
        first_meaningful_line("\n  Title \n  Body", "Title").as_deref(),
        Some("Body")
    );
    assert_eq!(first_meaningful_line("   ", ""), None);
    assert_eq!(event_channel_name(&e, Some("Fallback")), "Das Erste HD");
    e.sname = "  ".to_string();
    assert_eq!(event_channel_name(&e, Some("Fallback")), "Fallback");
    assert_eq!(event_channel_name(&e, None), "");
    assert_eq!(epg_heading(" ZDF "), "EPG - ZDF");
    assert_eq!(event_detail_time(" ZDF ", "01:00 - 01:15"), "ZDF  01:00 - 01:15");
    assert_eq!(event_detail_time("  ", "01:00 - 01:15"), "01:00 - 01:15");
    assert_eq!(
        event_row_markup("01:00 - 01:15", "Tagesschau"),
        "<span foreground=\"#b6b6b6\">01:00 - 01:15</span>  Tagesschau"
    );
}

fn event(title: &str, begin_timestamp: i64, duration_sec: i64, now_timestamp: i64) -> EpgEvent {
    EpgEvent {
        id: None,
        begin_timestamp,
        duration_sec,
        title: title.to_string(),
        shortdesc: String::new(),
        longdesc: String::new(),
        genre: String::new(),
        sref: "service-ref".to_string(),
        sname: "Das Erste HD".to_string(),
        now_timestamp,
        remaining: 0,
    }
}
