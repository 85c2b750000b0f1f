use enigma2_player_core::enigma2::urls::{
    encode_query_value, epg_now_url, epg_service_url, extract_stream_url,
    has_supported_url_scheme, normalize_base_url, services_url, stream_m3u_url,
};

#[test]
fn epg_now_url_percent_encodes_bouquet_reference() {
    let url = epg_now_url("http://receiver.local/", "1:7:1:FROM BOUQUET \"tv\"");

    assert_eq!(
        url,
        "http://receiver.local/api/epgnow?bRef=1%3A7%3A1%3AFROM+BOUQUET+%22tv%22"
    );
}

#[test]
fn epg_service_url_percent_encodes_service_reference() {
    let url = epg_service_url("http://receiver.local/", "1:0:19:283D:3FB:1:C00000:0:0:0:");

    assert_eq!(
        url,
        "http://receiver.local/api/epgservice?sRef=1%3A0%3A19%3A283D%3A3FB%3A1%3AC00000%3A0%3A0%3A0%3A"
    );
}

#[test]
fn extract_stream_url_returns_first_non_comment_playlist_entry() {
    let m3u = "#EXTM3U\n#EXTVLCOPT:http-reconnect=true\nhttp://receiver.local:8001/ref\n";

    assert_eq!(
        extract_stream_url(m3u).as_deref(),
        Some("http://receiver.local:8001/ref")
    );
}

#[test]
fn extract_stream_url_returns_none_for_comment_only_playlist() {
    let m3u = "#EXTM3U\n#EXTVLCOPT:http-reconnect=true\n\n";

    assert_eq!(extract_stream_url(m3u), None);
}

#[test]
fn extract_stream_url_trims_lines_and_handles_crlf() {
    assert_eq!(
        extract_stream_url("#EXTM3U\r\n   \r\n  http://a/b  \r\n").as_deref(),
        Some("http://a/b")
    );
}

#[test]
fn normalize_base_url_trims_whitespace_and_trailing_slash_without_adding_scheme() {
    assert_eq!(
        normalize_base_url("  http://receiver.local/  "),
        "http://receiver.local"
    );
    assert_eq!(normalize_base_url("receiver.local/"), "receiver.local");
    assert_eq!(normalize_base_url("   "), "");
}

#[test]
fn normalize_base_url_drops_every_trailing_slash() {
    assert_eq!(normalize_base_url("http://a///"), "http://a");
}

#[test]
fn has_supported_url_scheme_accepts_only_http_and_https() {
    assert!(has_supported_url_scheme("http://receiver.local"));
    assert!(has_supported_url_scheme("https://receiver.local"));
    assert!(!has_supported_url_scheme("receiver.local"));
}

#[test]
fn stream_m3u_url_percent_encodes_service_reference() {
    let url = stream_m3u_url("http://receiver.local/", "1:0:19:2B66:3F3:1:C00000:0:0:0:");

    assert_eq!(
        url,
        "http://receiver.local/web/stream.m3u?ref=1%3A0%3A19%3A2B66%3A3F3%3A1%3AC00000%3A0%3A0%3A0%3A"
    );
}

#[test]
fn services_url_appends_the_endpoint() {
    assert_eq!(services_url("http://receiver.local/"), "http://receiver.local/api/getallservices");
}

#[test]
fn encode_query_value_encodes_form_style() {
    assert_eq!(encode_query_value("a b*-._~"), "a+b*-._%7E");
    assert_eq!(encode_query_value("\u{00e4}/"), "%C3%A4%2F");
    assert_eq!(encode_query_value(""), "");
}
