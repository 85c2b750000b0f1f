use enigma2_player_core::enigma2::api::{
    bouquet_at, stream_request, BouquetList, ClientState, Enigma2Client, Enigma2Error, Step,
};
use enigma2_player_core::enigma2::model::{Bouquet, Channel};
use std::sync::{Arc, Mutex};

fn client_with_responses(
    responses: Vec<(&str, &str)>,
) -> (
    Enigma2Client<impl Fn(&str) -> Result<String, Enigma2Error>>,
    Arc<Mutex<Vec<String>>>,
) {
    let responses = Arc::new(Mutex::new(
        responses
            .into_iter()
            .map(|(url, body)| (url.to_string(), body.to_string()))
            .collect::<Vec<_>>(),
    ));
    let requests = Arc::new(Mutex::new(Vec::new()));
    let requests_for_get = requests.clone();
    let responses_for_get = responses.clone();
    let client = Enigma2Client::new_with_http_getter("http://receiver.local", move |url: &str| {
        requests_for_get.lock().unwrap().push(url.to_string());
        let mut responses = responses_for_get.lock().unwrap();
        if responses.is_empty() {
            return Err(Enigma2Error::Http(format!("unexpected request {url}")));
        }
        let (expected_url, body) = responses.remove(0);
        assert_eq!(url, expected_url);
        Ok(body)
    });
    (client, requests)
}

fn progress(event: &enigma2_player_core::enigma2::model::EpgEvent) -> f64 {
    if event.duration_sec <= 0 {
        return 0.0;
    }
    event.elapsed_seconds() as f64 / event.duration_sec as f64
}

#[test]
fn enigma2_client_bouquet_with_epg_attaches_normalized_events_and_reuses_epg_cache() {
    let services = r#"{
        "result": true,
        "services": [{
            "servicename": "TV",
            "servicereference": "bouquet-ref",
            "subservices": [{
                "pos": 1,
                "servicename": "Eurosport 1 HD",
                "servicereference": "service-ref"
            }]
        }]
    }"#;
    let epg = r#"{
        "events": [{
            "begin_timestamp": 100,
            "duration_sec": 100,
            "now_timestamp": 125,
            "title": "Giro d&#x27;Italia",
            "shortdesc": "Etappe &amp; Analyse",
            "longdesc": "Etappe &amp; Analyse",
            "sref": "service-ref",
            "sname": "Eurosport 1 HD"
        }]
    }"#;
    let (client, requests) = client_with_responses(vec![
        ("http://receiver.local/api/getallservices", services),
        ("http://receiver.local/api/epgnow?bRef=bouquet-ref", epg),
    ]);

    let bouquet = client.bouquet_with_epg(0).unwrap();
    let event = bouquet.channels[0].epg.as_ref().unwrap();
    assert_eq!(event.title, format!("Giro d{}Italia", char::from(39)));
    assert_eq!(event.description(), "Etappe & Analyse");
    assert_eq!(progress(event), 0.25);

    let cached = client.epg_now("bouquet-ref").unwrap();
    assert_eq!(cached.len(), 1);
    assert_eq!(
        requests.lock().unwrap().as_slice(),
        [
            "http://receiver.local/api/getallservices",
            "http://receiver.local/api/epgnow?bRef=bouquet-ref",
        ]
    );
}

#[test]
fn enigma2_client_clones_share_epg_cache() {
    let epg = r#"{
        "events": [{
            "begin_timestamp": 100,
            "duration_sec": 100,
            "now_timestamp": 125,
            "title": "Tagesschau",
            "sref": "service-ref",
            "sname": "Das Erste HD"
        }]
    }"#;
    let (client, requests) = client_with_responses(vec![(
        "http://receiver.local/api/epgnow?bRef=bouquet-ref",
        epg,
    )]);
    let clone = client.clone();

    assert_eq!(
        client.epg_now("bouquet-ref").unwrap(),
        clone.epg_now("bouquet-ref").unwrap()
    );

    assert_eq!(
        requests.lock().unwrap().as_slice(),
        ["http://receiver.local/api/epgnow?bRef=bouquet-ref"]
    );
}

#[test]
fn enigma2_client_bouquets_parses_filters_normalizes_and_caches_services() {
    let services = r#"{
        "result": true,
        "services": [
            {
                "servicename": "TV &amp; Freies TV",
                "servicereference": "bouquet-ref",
                "subservices": [{
                    "pos": 1,
                    "servicename": "Das Erste &amp; HD",
                    "servicereference": "service-ref",
                    "program": 10
                }]
            },
            {
                "servicename": "",
                "servicereference": "ignored-empty-name",
                "subservices": [{"pos": 2, "servicename": "Ignored", "servicereference": "ignored"}]
            },
            {
                "servicename": "Ignored Empty Bouquet",
                "servicereference": "ignored-empty-bouquet",
                "subservices": []
            }
        ]
    }"#;
    let (client, requests) =
        client_with_responses(vec![("http://receiver.local/api/getallservices", services)]);

    let first = client.bouquets().unwrap();
    let second = client.bouquets().unwrap();

    assert_eq!(first, second);
    assert_eq!(first.len(), 1);
    assert_eq!(first[0].name, "TV & Freies TV");
    assert_eq!(first[0].channels[0].name, "Das Erste & HD");
    assert_eq!(first[0].channels[0].program, Some(10));
    assert_eq!(
        requests.lock().unwrap().as_slice(),
        ["http://receiver.local/api/getallservices"]
    );
}

#[test]
fn enigma2_client_clones_share_services_cache() {
    let services = r#"{
        "result": true,
        "services": [{
            "servicename": "TV",
            "servicereference": "bouquet-ref",
            "subservices": [{
                "pos": 1,
                "servicename": "Das Erste HD",
                "servicereference": "service-ref"
            }]
        }]
    }"#;
    let (client, requests) =
        client_with_responses(vec![("http://receiver.local/api/getallservices", services)]);
    let clone = client.clone();

    assert_eq!(client.bouquets().unwrap(), clone.bouquets().unwrap());

    assert_eq!(
        requests.lock().unwrap().as_slice(),
        ["http://receiver.local/api/getallservices"]
    );
}

#[test]
fn enigma2_client_bouquets_reports_invalid_services_result() {
    let (client, requests) = client_with_responses(vec![(
        "http://receiver.local/api/getallservices",
        r#"{"result": false, "services": []}"#,
    )]);

    let err = client.bouquets().unwrap_err();

    assert_eq!(err.message(), "Dreambox did not accept getallservices");
    assert_eq!(
        requests.lock().unwrap().as_slice(),
        ["http://receiver.local/api/getallservices"]
    );
}

#[test]
fn enigma2_client_bouquets_requires_configured_base_url() {
    let client = Enigma2Client::new_with_http_getter("", |url: &str| {
        Err(Enigma2Error::Http(format!("unexpected request {url}")))
    });

    let err = client.bouquets().unwrap_err();

    assert_eq!(err.message(), "Dreambox URL is not configured in settings");
}

#[test]
fn enigma2_client_resolve_stream_url_reads_first_playable_playlist_entry() {
    let playlist = "#EXTM3U\n#EXTINF:-1,Test\nhttp://receiver.local:8001/service-ref\n";
    let (client, requests) = client_with_responses(vec![(
        "http://receiver.local/web/stream.m3u?ref=service-ref",
        playlist,
    )]);

    let stream = client.resolve_stream_url("service-ref").unwrap();

    assert_eq!(stream, "http://receiver.local:8001/service-ref");
    assert_eq!(
        requests.lock().unwrap().as_slice(),
        ["http://receiver.local/web/stream.m3u?ref=service-ref"]
    );
}

#[test]
fn enigma2_client_service_epg_loads_events_and_reuses_cache() {
    let epg = r#"{
        "events": [{
            "begin_timestamp": 100,
            "duration_sec": 100,
            "now_timestamp": 125,
            "title": "Tagesschau",
            "shortdesc": "Nachrichten",
            "longdesc": "Nachrichten &amp; Wetter",
            "sref": "service-ref",
            "sname": "Das Erste HD"
        }]
    }"#;
    let (client, requests) = client_with_responses(vec![(
        "http://receiver.local/api/epgservice?sRef=service-ref",
        epg,
    )]);

    let events = client.service_epg("service-ref").unwrap();
    let cached = client.service_epg("service-ref").unwrap();

    assert_eq!(events, cached);
    assert_eq!(events[0].title, "Tagesschau");
    assert_eq!(
        events[0].description(),
        "Nachrichten\n\nNachrichten & Wetter"
    );
    assert_eq!(
        requests.lock().unwrap().as_slice(),
        ["http://receiver.local/api/epgservice?sRef=service-ref"]
    );
}

#[test]
fn enigma2_client_set_base_url_drops_caches_only_when_it_changes() {
    let services = r#"{"result": true, "services": [{"servicename": "TV", "servicereference": "b", "subservices": [{"pos": 1, "servicename": "A", "servicereference": "a"}]}]}"#;
    let (client, requests) = client_with_responses(vec![
        ("http://receiver.local/api/getallservices", services),
        ("http://other.local/api/getallservices", services),
    ]);

    client.bouquets().unwrap();
    client.set_base_url(" http://receiver.local/ ");
    client.bouquets().unwrap();
    client.set_base_url("http://other.local/");
    assert_eq!(client.base_url(), "http://other.local");
    client.bouquets().unwrap();

    assert_eq!(
        requests.lock().unwrap().as_slice(),
        [
            "http://receiver.local/api/getallservices",
            "http://other.local/api/getallservices",
        ]
    );
}

#[test]
fn enigma2_client_clear_cache_fetches_again() {
    let epg = r#"{"events": []}"#;
    let (client, requests) = client_with_responses(vec![
        ("http://receiver.local/api/epgnow?bRef=b", epg),
        ("http://receiver.local/api/epgnow?bRef=b", epg),
    ]);

    assert!(client.epg_now("b").unwrap().is_empty());
    client.clear_cache();
    assert!(client.epg_now("b").unwrap().is_empty());
    assert_eq!(client.base_url(), "http://receiver.local");
    assert_eq!(requests.lock().unwrap().len(), 2);
}

#[test]
fn enigma2_client_reports_json_errors_and_missing_stream() {
    let (client, _requests) = client_with_responses(vec![
        ("http://receiver.local/api/getallservices", "not json"),
        ("http://receiver.local/web/stream.m3u?ref=s", "#EXTM3U\n"),
    ]);

    assert!(matches!(client.bouquets(), Err(Enigma2Error::Json(_))));
    let err = client.resolve_stream_url("s").unwrap_err();
    assert!(matches!(err, Enigma2Error::InvalidResponse(_)));
    assert_eq!(err.message(), "Dreambox stream playlist did not contain a URL");
}

#[test]
fn enigma2_client_passes_http_errors_on() {
    let (client, _requests) = client_with_responses(vec![]);

    let err = client.epg_now("b").unwrap_err();
    assert!(matches!(err, Enigma2Error::Http(_)));
    assert_eq!(
        err.message(),
        "unexpected request http://receiver.local/api/epgnow?bRef=b"
    );
}

#[test]
fn enigma2_client_bouquet_with_epg_reports_missing_bouquet() {
    let services = r#"{"result": true, "services": [{"servicename": "TV", "servicereference": "b", "subservices": [{"pos": 1, "servicename": "A", "servicereference": "a"}]}]}"#;
    let (client, _requests) =
        client_with_responses(vec![("http://receiver.local/api/getallservices", services)]);

    let err = client.bouquet_with_epg(3).unwrap_err();
    assert_eq!(err.message(), "Bouquet not found");
}

fn listed_bouquet(name: &str) -> Bouquet {
    Bouquet {
        name: name.to_string(),
        service_ref: format!("{name}-ref"),
        channels: vec![Channel {
            position: 1,
            name: "A".to_string(),
            service_ref: "a".to_string(),
            program: None,
            epg: None,
        }],
    }
}

#[test]
fn client_state_records_answers_only_for_the_current_receiver() {
    let at = std::time::Instant::now();
    let state = ClientState::new("http://receiver.local".to_string());
    assert!(state.cached_services().is_none());

    let list = BouquetList::new(vec![listed_bouquet("TV")]).unwrap();
    assert!(state.with_services("http://other.local", list, at).is_none());

    let list = BouquetList::new(vec![listed_bouquet("TV")]).unwrap();
    let state = state.with_services("http://receiver.local", list, at).unwrap();
    let (cached, cached_at) = state.cached_services().unwrap();
    assert_eq!(cached, vec![listed_bouquet("TV")]);
    assert_eq!(cached_at, at);

    let events = Vec::new();
    let state = state
        .with_epg("http://receiver.local", false, "b", &events, at)
        .unwrap();
    assert!(state.cached_epg(false, "b").is_some());
    assert!(state.cached_epg(true, "b").is_none());
    assert!(state.cached_services().is_some());

    assert!(state.for_base_url(" http://receiver.local/ ").is_none());
    let moved = state.for_base_url("http://other.local").unwrap();
    assert_eq!(moved.base_url(), "http://other.local");
    assert!(moved.cached_services().is_none());
    let cleared = state.cleared();
    assert_eq!(cleared.base_url(), "http://receiver.local");
    assert!(cleared.cached_epg(false, "b").is_none());
}

#[test]
fn bouquet_list_refuses_bouquets_without_name_or_channels() {
    let mut empty = listed_bouquet("TV");
    empty.channels.clear();
    assert!(BouquetList::new(vec![listed_bouquet("TV"), empty]).is_none());
    assert!(BouquetList::new(vec![listed_bouquet("  ")]).is_none());
    assert_eq!(
        BouquetList::new(vec![listed_bouquet("TV")]).unwrap().to_vec(),
        vec![listed_bouquet("TV")]
    );
}

#[test]
fn client_state_services_step_reuses_fresh_lists_and_names_the_request() {
    let at = std::time::Instant::now();
    let blank = ClientState::new(String::new());
    assert!(matches!(blank.services_step(None), Step::Missing));
    assert!(blank.services_fetched_at().is_none());

    let state = ClientState::new("http://receiver.local".to_string());
    match state.services_step(Some(0)) {
        Step::Fetch(url) => assert_eq!(url, "http://receiver.local/api/getallservices"),
        _ => panic!("expected a request"),
    }
    let list = BouquetList::new(vec![listed_bouquet("TV")]).unwrap();
    let state = state.with_services("http://receiver.local", list, at).unwrap();
    assert_eq!(state.services_fetched_at(), Some(at));
    match state.services_step(Some(59)) {
        Step::Cached(bs) => assert_eq!(bs, vec![listed_bouquet("TV")]),
        _ => panic!("expected the cached list"),
    }
    assert!(matches!(state.services_step(Some(60)), Step::Fetch(_)));
    assert!(matches!(state.services_step(None), Step::Fetch(_)));
}

#[test]
fn client_state_epg_step_reuses_fresh_answers_per_key() {
    let at = std::time::Instant::now();
    let state = ClientState::new("http://receiver.local".to_string());
    match state.epg_step(false, "1:0:1 a&b", None) {
        Step::Fetch(url) => assert_eq!(
            url,
            "http://receiver.local/api/epgnow?bRef=1%3A0%3A1+a%26b"
        ),
        _ => panic!("expected a request"),
    }
    match state.epg_step(true, "s", None) {
        Step::Fetch(url) => assert_eq!(url, "http://receiver.local/api/epgservice?sRef=s"),
        _ => panic!("expected a request"),
    }
    let events = Vec::new();
    let state = state
        .with_epg("http://receiver.local", false, "b", &events, at)
        .unwrap();
    assert_eq!(state.epg_fetched_at(false, "b"), Some(at));
    assert!(state.epg_fetched_at(true, "b").is_none());
    assert!(matches!(state.epg_step(false, "b", Some(89)), Step::Cached(_)));
    assert!(matches!(state.epg_step(false, "b", Some(90)), Step::Fetch(_)));
    assert!(matches!(state.epg_step(true, "b", Some(1)), Step::Fetch(_)));
    let blank = ClientState::new(String::new());
    assert!(matches!(blank.epg_step(false, "b", None), Step::Missing));
}

#[test]
fn stream_request_needs_a_base_url() {
    let e = stream_request("  ", "s").unwrap_err();
    assert!(matches!(e, Enigma2Error::MissingSettings(_)));
    assert_eq!(e.message(), "Dreambox URL is not configured in settings");
    assert_eq!(
        stream_request(" http://r/ ", "1:0:1").unwrap(),
        "http://r/web/stream.m3u?ref=1%3A0%3A1"
    );
}

#[test]
fn bouquet_at_reports_an_index_past_the_list() {
    assert_eq!(
        bouquet_at(vec![listed_bouquet("TV")], 0).unwrap(),
        listed_bouquet("TV")
    );
    let e = bouquet_at(vec![listed_bouquet("TV")], 1).unwrap_err();
    assert!(matches!(e, Enigma2Error::InvalidResponse(_)));
    assert_eq!(e.message(), "Bouquet not found");
}
