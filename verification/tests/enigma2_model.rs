use enigma2_player_core::enigma2::epg_text::{decode_entity, decode_html_entities};
use enigma2_player_core::enigma2::json::{parse_epg_response, parse_services_response};
use enigma2_player_core::enigma2::model::{
    attach_epg, chrono_like_local_time, format_time, local_offset_from, normalize_epg_text,
    Bouquet, Channel, EpgEvent,
};

fn progress(event: &EpgEvent) -> f64 {
    if event.duration_sec <= 0 {
        return 0.0;
    }
    event.elapsed_seconds() as f64 / event.duration_sec as f64
}

fn channel(service_ref: &str) -> Channel {
    Channel {
        position: 82,
        name: "ZDF HD".to_string(),
        service_ref: service_ref.to_string(),
        program: Some(11110),
        epg: None,
    }
}

fn event(shortdesc: &str, longdesc: &str) -> EpgEvent {
    EpgEvent {
        id: None,
        begin_timestamp: 0,
        duration_sec: 0,
        title: String::new(),
        shortdesc: shortdesc.to_string(),
        longdesc: longdesc.to_string(),
        genre: String::new(),
        sref: String::new(),
        sname: String::new(),
        now_timestamp: 0,
        remaining: 0,
    }
}

fn event_with_times(begin_timestamp: i64, duration_sec: i64, now_timestamp: i64) -> EpgEvent {
    EpgEvent {
        id: None,
        begin_timestamp,
        duration_sec,
        title: String::new(),
        shortdesc: String::new(),
        longdesc: String::new(),
        genre: String::new(),
        sref: String::new(),
        sname: String::new(),
        now_timestamp,
        remaining: 0,
    }
}

#[test]
fn attach_epg_matches_events_by_service_reference() {
    let service_ref = "1:0:19:2B66:3F3:1:C00000:0:0:0:";
    let bouquet = Bouquet {
        name: "Freie Sender".to_string(),
        service_ref: "bouquet-ref".to_string(),
        channels: vec![channel(service_ref)],
    };
    let event = EpgEvent {
        id: Some(1),
        begin_timestamp: 100,
        duration_sec: 100,
        title: "Heute".to_string(),
        shortdesc: "Kurz".to_string(),
        longdesc: "Lang".to_string(),
        genre: String::new(),
        sref: service_ref.to_string(),
        sname: "ZDF HD".to_string(),
        now_timestamp: 150,
        remaining: 50,
    };

    let bouquet = attach_epg(bouquet, &[event]);
    let attached = bouquet.channels[0].epg.as_ref().unwrap();

    assert_eq!(attached.title, "Heute");
    assert_eq!(progress(attached), 0.5);
    assert_eq!(attached.description(), "Kurz\n\nLang");
}

#[test]
fn attach_epg_leaves_channels_without_matching_event_empty_and_takes_the_last_match() {
    let bouquet = Bouquet {
        name: "B".to_string(),
        service_ref: "b".to_string(),
        channels: vec![channel("a"), channel("c")],
    };
    let mut first = event("", "");
    first.sref = "a".to_string();
    first.title = "First".to_string();
    let mut second = event("", "");
    second.sref = "a".to_string();
    second.title = "Second".to_string();
    let unrelated = event("", "");

    let bouquet = attach_epg(bouquet, &[first, unrelated, second]);

    assert_eq!(bouquet.name, "B");
    assert_eq!(bouquet.channels.len(), 2);
    assert_eq!(bouquet.channels[0].epg.as_ref().unwrap().title, "Second");
    assert_eq!(bouquet.channels[1].epg, None);
    let again = attach_epg(bouquet.clone(), &[]);
    assert!(again.channels.iter().all(|c| c.epg.is_none()));
}

#[test]
fn services_response_deserializes_normalized_bouquet_and_channel_names() {
    let services = parse_services_response(
        r#"{
            "result": true,
            "services": [{
                "servicename": "TV &amp; Freies TV",
                "servicereference": "bouquet-ref",
                "subservices": [{
                    "pos": 7,
                    "servicename": "ORF 1 HD Snow White &amp; The Huntsman",
                    "servicereference": "service-ref",
                    "program": 1
                }]
            }]
        }"#,
    )
    .unwrap();

    assert_eq!(services.services[0].servicename, "TV & Freies TV");
    assert_eq!(
        services.services[0].subservices[0].servicename,
        "ORF 1 HD Snow White & The Huntsman"
    );
}

#[test]
fn epg_now_response_deserializes_normalized_event_text() {
    let events = parse_epg_response(
        r#"{
            "events": [{
                "title": "Radsport: Giro d&#x27;Italia",
                "shortdesc": "Kurz",
                "longdesc": "Lang &amp; sauber",
                "genre": "Sport &amp; Freizeit",
                "sref": "service-ref",
                "sname": "Eurosport &amp; Co"
            }]
        }"#,
    )
    .unwrap();

    let event = &events[0];
    assert_eq!(
        event.title,
        format!("Radsport: Giro d{}Italia", char::from(39))
    );
    assert_eq!(event.sname, "Eurosport & Co");
    assert_eq!(event.genre, "Sport & Freizeit");
    assert_eq!(event.description(), "Kurz\n\nLang & sauber");
}

#[test]
fn epg_response_reports_invalid_json_and_wrong_shapes() {
    assert!(parse_epg_response("not json").is_err());
    assert!(parse_epg_response(r#"{"events": 3}"#).is_err());
    assert!(parse_services_response(r#"{"result": true, "services": 5}"#).is_err());
    assert!(parse_services_response(r#"{"result": true}"#).unwrap().services.is_empty());
    let events = parse_epg_response(r#"{"events": [{"title": null, "begin_timestamp": 5}]}"#).unwrap();
    assert_eq!(events[0].title, "");
    assert_eq!(events[0].begin_timestamp, 5);
    assert_eq!(events[0].id, None);
}

#[test]
fn epg_event_description_decodes_html_entities_and_escaped_newlines() {
    let event = event(
        "Nicky &quot;Koch&quot;",
        "Regie: Holger Haase\n\nDarsteller: Katharina M&uuml;ller-Elmau",
    );

    assert_eq!(
        event.description(),
        "Nicky \"Koch\"\n\nRegie: Holger Haase\n\nDarsteller: Katharina M\u{00fc}ller-Elmau"
    );
}

#[test]
fn epg_event_description_deduplicates_equal_shortdesc_and_longdesc() {
    let event = event("Same &#38; Value", "Same &amp; Value");

    assert_eq!(event.description(), "Same & Value");
}

#[test]
fn epg_event_description_skips_title_duplicate() {
    let mut event = event("Tagesschau", "Die Nachrichten der ARD");
    event.title = "Tagesschau".to_string();

    assert_eq!(event.description(), "Die Nachrichten der ARD");
}

#[test]
fn epg_event_description_skips_leading_title_line() {
    let mut event = event(
        "Atomic Blonde\nAction, USA 2017\nAltersfreigabe: ab 16",
        "Actionthriller",
    );
    event.title = "Atomic Blonde".to_string();

    assert_eq!(
        event.description(),
        "Action, USA 2017\nAltersfreigabe: ab 16\n\nActionthriller"
    );
}

#[test]
fn normalize_epg_text_preserves_unknown_entities_and_decodes_numeric_entities() {
    assert_eq!(
        normalize_epg_text("Foo &unknown; &#x27;bar&#x27;"),
        format!("Foo &unknown; {}bar{}", char::from(39), char::from(39))
    );
}

#[test]
fn normalize_epg_text_unescapes_line_breaks_and_trims_lines() {
    assert_eq!(normalize_epg_text("  a  \\r\\nb \\n c\\r  "), "a\nb\n c");
    assert_eq!(normalize_epg_text("   "), "");
}

#[test]
fn decode_html_entities_keeps_unterminated_and_overlong_entities() {
    assert_eq!(decode_html_entities("a &amp b"), "a &amp b");
    assert_eq!(decode_html_entities("&abcdefghijklmno;"), "&abcdefghijklmno;");
    assert_eq!(decode_html_entities("&#65;&#x42;&lt;&gt;&szlig;"), "AB<>\u{00df}");
    assert_eq!(decode_html_entities("&#xD800;"), "&#xD800;");
}

#[test]
fn decode_html_entities_leaves_text_without_ampersand_alone() {
    let text = "Regie: Holger Haase; \u{00fc}ber 90 Minuten";
    assert_eq!(decode_html_entities(text), text);
}

#[test]
fn decode_entity_knows_names_and_numbers() {
    assert_eq!(decode_entity("amp"), Some('&'));
    assert_eq!(decode_entity("nbsp"), Some(' '));
    assert_eq!(decode_entity("#X41"), Some('A'));
    assert_eq!(decode_entity("#97"), Some('a'));
    assert_eq!(decode_entity("#"), None);
    assert_eq!(decode_entity("bogus"), None);
}

#[test]
fn epg_event_progress_returns_fraction_inside_event_bounds() {
    assert_eq!(progress(&event_with_times(100, 100, 150)), 0.5);
}

#[test]
fn epg_event_progress_clamps_before_start_after_end_and_invalid_duration() {
    assert_eq!(progress(&event_with_times(100, 100, 50)), 0.0);
    assert_eq!(progress(&event_with_times(100, 100, 250)), 1.0);
    assert_eq!(progress(&event_with_times(100, 0, 150)), 0.0);
    assert_eq!(progress(&event_with_times(100, -10, 150)), 0.0);
}

#[test]
fn end_timestamp_ignores_negative_durations_and_saturates() {
    assert_eq!(event_with_times(100, 50, 0).end_timestamp(), 150);
    assert_eq!(event_with_times(100, -50, 0).end_timestamp(), 100);
    assert_eq!(event_with_times(i64::MAX - 1, 10, 0).end_timestamp(), i64::MAX);
}

#[test]
fn format_time_shows_local_clock_or_placeholder() {
    assert_eq!(format_time(0, 7200), "--:--");
    assert_eq!(format_time(-5, 7200), "--:--");
    assert_eq!(format_time(3600 + 5 * 60, 7200), "03:05");
    assert_eq!(format_time(23 * 3600, 7200), "01:00");
    assert_eq!(chrono_like_local_time(3600 + 5 * 60, 0), (1, 5));
}

#[test]
fn time_range_joins_begin_and_end() {
    let event = event_with_times(3600, 1800, 0);
    assert_eq!(event.time_range(0), "01:00 - 01:30");
}

#[test]
fn local_offset_defaults_to_two_hours_and_is_never_negative() {
    assert_eq!(local_offset_from(None), 7200);
    assert_eq!(local_offset_from(Some("3600")), 3600);
    assert_eq!(local_offset_from(Some("-3600")), 0);
    assert_eq!(local_offset_from(Some("soon")), 7200);
}

#[test]
fn clean_epg_text_normalizes_to_itself() {
    let clean = "Tagesschau\nWetter und Sport\n\nEnde";
    assert_eq!(normalize_epg_text(clean), clean);
    assert_eq!(normalize_epg_text(""), "");
}

#[test]
fn decoding_never_lengthens_and_needs_a_semicolon() {
    for text in ["a &amp; b", "&#228;", "&unknown;", "&", "&amp", "x &lt;&gt; y"] {
        assert!(decode_html_entities(text).chars().count() <= text.chars().count());
    }
    for text in ["Tom & Jerry", "&amp without end", "&#x27 &quot"] {
        assert_eq!(decode_html_entities(text), text);
    }
}

#[test]
fn records_may_be_written_as_arrays_in_field_order() {
    let services = parse_services_response(
        r#"[true, [["TV &amp; Film", "b", [[1, "Das Erste", "s", 10], {"pos": 2}]]]]"#,
    )
    .unwrap();
    assert!(services.result);
    assert_eq!(services.services.len(), 1);
    let bouquet = &services.services[0];
    assert_eq!(bouquet.servicename, "TV & Film");
    assert_eq!(bouquet.servicereference, "b");
    assert_eq!(bouquet.subservices.len(), 2);
    assert_eq!(bouquet.subservices[0].pos, 1);
    assert_eq!(bouquet.subservices[0].servicename, "Das Erste");
    assert_eq!(bouquet.subservices[0].servicereference, "s");
    assert_eq!(bouquet.subservices[0].program, Some(10));
    assert_eq!(bouquet.subservices[1].pos, 2);

    let empty = parse_services_response("[]").unwrap();
    assert!(!empty.result);
    assert!(empty.services.is_empty());

    let events = parse_epg_response(r#"{"events": [[7, 100, 60, "Heute &amp; Morgen"]]}"#).unwrap();
    assert_eq!(events.len(), 1);
    assert_eq!(events[0].id, Some(7));
    assert_eq!(events[0].begin_timestamp, 100);
    assert_eq!(events[0].duration_sec, 60);
    assert_eq!(events[0].title, "Heute & Morgen");
    assert_eq!(events[0].shortdesc, "");
}

#[test]
fn array_records_need_their_fields_without_default_and_no_more() {
    assert!(parse_services_response(r#"{"services": [["TV", "b", [[1, "A", "a"]]]]}"#).is_err());
    assert!(parse_services_response(r#"[true, [], 3]"#).is_err());
    assert!(parse_epg_response(r#"{"events": [[]]}"#).is_err());
    assert!(parse_epg_response(r#"[[], 1]"#).is_err());
    assert!(parse_epg_response(r#"[[]]"#).unwrap().is_empty());
}
