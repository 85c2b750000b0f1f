use enigma2_player_core::enigma2::api::{Enigma2Client, Enigma2Error};
use enigma2_player_core::enigma2::model::Bouquet;
use enigma2_player_core::ui::bouquet_loading::{
    choose_bouquet, load_bouquet_by_index, loaded_from_epg, NO_BOUQUETS_MESSAGE,
};

fn client_answering(
    answers: Vec<(&'static str, &'static str)>,
) -> Enigma2Client<impl Fn(&str) -> Result<String, Enigma2Error>> {
    Enigma2Client::new_with_http_getter("http://receiver.local", move |url: &str| {
        answers
            .iter()
            .find(|(expected, _)| *expected == url)
            .map(|(_, body)| body.to_string())
            .ok_or_else(|| Enigma2Error::Http(format!("no answer for {url}")))
    })
}

fn bouquet(name: &str) -> Bouquet {
    Bouquet {
        name: name.to_string(),
        service_ref: format!("{name}-ref"),
        channels: Vec::new(),
    }
}

const SERVICES: &str = r#"{"result": true, "services": [
    {"servicename": "TV", "servicereference": "tv-ref", "subservices": [{"pos": 1, "servicename": "A", "servicereference": "a"}]},
    {"servicename": "Radio", "servicereference": "radio-ref", "subservices": [{"pos": 1, "servicename": "B", "servicereference": "b"}]}
]}"#;

const RADIO_EPG: &str = r#"{"events": [{"title": "Morning", "sref": "b", "begin_timestamp": 1, "duration_sec": 2}]}"#;

#[test]
fn choose_bouquet_clamps_the_index_and_reports_empty_lists() {
    let chosen = choose_bouquet(Ok(vec![bouquet("A"), bouquet("B")]), 5).unwrap();
    assert_eq!((chosen.0, chosen.1, chosen.2.name.as_str()), (1, 2, "B"));
    let chosen = choose_bouquet(Ok(vec![bouquet("A"), bouquet("B")]), 0).unwrap();
    assert_eq!(chosen.2.name, "A");
    assert_eq!(choose_bouquet(Ok(Vec::new()), 0).unwrap_err(), NO_BOUQUETS_MESSAGE);
    assert_eq!(
        choose_bouquet(Err(Enigma2Error::Http("down".to_string())), 0).unwrap_err(),
        "down"
    );
}

#[test]
fn loaded_from_epg_keeps_the_error_message_beside_the_bare_bouquet() {
    let loaded = loaded_from_epg(bouquet("A"), Err(Enigma2Error::Json("bad".to_string())));
    assert_eq!(loaded.epg_error.as_deref(), Some("bad"));
    assert_eq!(loaded.bouquet, bouquet("A"));
    let loaded = loaded_from_epg(bouquet("A"), Ok(Vec::new()));
    assert_eq!(loaded.epg_error, None);
}

#[test]
fn load_bouquet_by_index_loads_the_last_bouquet_for_a_large_index() {
    let client = client_answering(vec![
        ("http://receiver.local/api/getallservices", SERVICES),
        ("http://receiver.local/api/epgnow?bRef=radio-ref", RADIO_EPG),
    ]);

    let loaded = load_bouquet_by_index(&client, 9).unwrap();
    assert_eq!(loaded.index, 1);
    assert_eq!(loaded.bouquet_count, 2);
    assert_eq!(loaded.bouquet.name, "Radio");
    assert_eq!(loaded.bouquet.channels[0].epg.as_ref().unwrap().title, "Morning");
    assert_eq!(loaded.epg_error, None);
}

#[test]
fn load_bouquet_by_index_tolerates_a_failed_epg_request() {
    let client = client_answering(vec![("http://receiver.local/api/getallservices", SERVICES)]);

    let loaded = load_bouquet_by_index(&client, 0).unwrap();
    assert_eq!(loaded.index, 0);
    assert_eq!(loaded.bouquet.name, "TV");
    assert!(loaded.bouquet.channels[0].epg.is_none());
    assert_eq!(
        loaded.epg_error.as_deref(),
        Some("no answer for http://receiver.local/api/epgnow?bRef=tv-ref")
    );
}

#[test]
fn load_bouquet_by_index_reports_a_failed_bouquet_request() {
    let client = client_answering(vec![]);
    assert_eq!(
        load_bouquet_by_index(&client, 0).unwrap_err(),
        "no answer for http://receiver.local/api/getallservices"
    );
}
