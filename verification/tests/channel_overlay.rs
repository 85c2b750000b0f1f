use enigma2_player_core::enigma2::model::{Channel, EpgEvent};
use enigma2_player_core::ui::channel_list::{
    bouquet_heading, channel_detail_time, channel_listing, channel_row_event_title,
    channel_row_markup, channel_row_text, contains_chars, current_service_ref_from,
    same_service_ref, ChannelRow,
};
use enigma2_player_core::ui::channel_overlay::{
    channel_body_layout_width, channel_list_width, detail_width, shifted_bouquet_index,
    CHANNEL_OVERLAY_PANEL_HORIZONTAL_MARGIN,
};

#[test]
fn channel_body_layout_width_uses_current_body_width() {
    let root_width = 1280;
    let body_width = root_width - CHANNEL_OVERLAY_PANEL_HORIZONTAL_MARGIN;

    assert_eq!(
        channel_body_layout_width(body_width, root_width),
        body_width
    );
}

#[test]
fn channel_body_layout_width_clamps_stale_fullscreen_width() {
    let root_width = 1280;
    let fullscreen_body_width = 1920 - CHANNEL_OVERLAY_PANEL_HORIZONTAL_MARGIN;

    assert_eq!(
        channel_body_layout_width(fullscreen_body_width, root_width),
        root_width - CHANNEL_OVERLAY_PANEL_HORIZONTAL_MARGIN
    );
}

#[test]
fn channel_body_layout_width_uses_root_width_before_body_allocation() {
    let root_width = 1280;

    assert_eq!(
        channel_body_layout_width(0, root_width),
        root_width - CHANNEL_OVERLAY_PANEL_HORIZONTAL_MARGIN
    );
}

#[test]
fn channel_body_layout_width_keeps_body_width_before_root_allocation() {
    assert_eq!(channel_body_layout_width(500, 0), 500);
    assert_eq!(channel_body_layout_width(500, 20), 1);
}

#[test]
fn channel_list_takes_sixty_percent_and_detail_the_rest() {
    assert_eq!(channel_list_width(1244), 746);
    assert_eq!(channel_list_width(1), 1);
    assert_eq!(detail_width(1244, 746), 498);
    assert_eq!(detail_width(1, 1), 1);
}

#[test]
fn shifted_bouquet_index_wraps_both_ways() {
    assert_eq!(shifted_bouquet_index(0, -1, 3), 2);
    assert_eq!(shifted_bouquet_index(2, 1, 3), 0);
    assert_eq!(shifted_bouquet_index(1, 1, 3), 2);
    assert_eq!(shifted_bouquet_index(0, 1, 1), 0);
}

fn event(title: &str) -> EpgEvent {
    EpgEvent {
        id: None,
        begin_timestamp: 3600,
        duration_sec: 1800,
        title: title.to_string(),
        shortdesc: String::new(),
        longdesc: String::new(),
        genre: String::new(),
        sref: String::new(),
        sname: String::new(),
        now_timestamp: 0,
        remaining: 0,
    }
}

fn channel(position: u32, name: &str, service_ref: &str, title: Option<&str>) -> Channel {
    Channel {
        position,
        name: name.to_string(),
        service_ref: service_ref.to_string(),
        program: None,
        epg: title.map(event),
    }
}

#[test]
fn channel_listing_filters_by_name_or_event_title_ignoring_case() {
    let channels = vec![
        channel(1, "Das Erste HD", "1:a", Some("Tagesschau")),
        channel(2, "ZDF HD", "1:b", Some("Heute Journal")),
        channel(3, "ARTE", "1:c", None),
    ];

    let listing = channel_listing(&channels, "ERSTE", None);
    assert_eq!(listing.rows, vec![ChannelRow { index: 0, selected: false }]);
    assert_eq!(listing.detail, Some(0));

    let listing = channel_listing(&channels, "journal", None);
    assert_eq!(listing.rows, vec![ChannelRow { index: 1, selected: false }]);

    let listing = channel_listing(&channels, "nothing", None);
    assert!(listing.rows.is_empty());
    assert_eq!(listing.detail, None);
}

#[test]
fn channel_listing_marks_the_playing_channel_and_shows_it_in_detail() {
    let channels = vec![
        channel(1, "Das Erste HD", "1:a", None),
        channel(2, "ZDF HD", " 1:b ", None),
        channel(3, "ARTE", "1:c", None),
    ];

    let listing = channel_listing(&channels, "", Some("1:b"));
    assert_eq!(
        listing.rows,
        vec![
            ChannelRow { index: 0, selected: false },
            ChannelRow { index: 1, selected: true },
            ChannelRow { index: 2, selected: false },
        ]
    );
    assert_eq!(listing.detail, Some(1));

    let listing = channel_listing(&channels, "", Some("1:x"));
    assert_eq!(listing.detail, Some(0));
}

#[test]
fn same_service_ref_compares_trimmed_references() {
    assert!(same_service_ref(" 1:0:1 ", "1:0:1"));
    assert!(!same_service_ref("1:0:1", "1:0:2"));
}

#[test]
fn current_service_ref_from_trims_and_drops_blank_references() {
    assert_eq!(current_service_ref_from(Some("  1:0:1 ")).as_deref(), Some("1:0:1"));
    assert_eq!(current_service_ref_from(Some("   ")), None);
    assert_eq!(current_service_ref_from(None), None);
}

#[test]
fn contains_chars_finds_runs_of_characters() {
    let hay: Vec<char> = "das erste".chars().collect();
    let yes: Vec<char> = "erst".chars().collect();
    let no: Vec<char> = "zdf".chars().collect();
    assert!(contains_chars(&hay, &yes));
    assert!(!contains_chars(&hay, &no));
    assert!(contains_chars(&hay, &[]));
    assert!(!contains_chars(&[], &yes));
}

#[test]
fn channel_row_texts_and_markup() {
    let with_event = channel(82, "ZDF HD", "1:b", Some("  Heute  "));
    let without_event = channel(7, "ARTE", "1:c", None);

    assert_eq!(channel_row_text(&with_event), "82 ZDF HD");
    assert_eq!(channel_row_event_title(&with_event), "Heute");
    assert_eq!(channel_row_event_title(&without_event), "");
    assert_eq!(
        channel_row_markup("82 ZDF HD", "Heute"),
        "82 ZDF HD  <span foreground=\"#b6b6b6\">Heute</span>"
    );
    assert_eq!(channel_row_markup("7 ARTE", ""), "7 ARTE");
    assert_eq!(bouquet_heading("  Favourites "), "TV - Favourites");
    assert_eq!(channel_detail_time("ZDF HD", "01:00 - 01:30"), "ZDF HD  01:00 - 01:30");
}

#[test]
fn shifted_bouquet_index_wraps_from_an_index_past_the_list() {
    assert_eq!(shifted_bouquet_index(5, 1, 3), 0);
    assert_eq!(shifted_bouquet_index(7, -1, 3), 0);
    assert_eq!(shifted_bouquet_index(0, -4, 3), 2);
    assert_eq!(shifted_bouquet_index(1, 7, 3), 2);
}
