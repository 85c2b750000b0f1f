use enigma2_player_core::common::player::session::{AudioTrack, PlaybackState};
use enigma2_player_core::common::player::stream_settings::{
    audio_track_button_label, audio_tracks_in_menu_order,
};

fn track(id: i64, selected: bool) -> AudioTrack {
    AudioTrack {
        id,
        label: format!("Audio {id}"),
        selected,
    }
}

#[test]
fn audio_tracks_in_menu_order_moves_selected_track_to_bottom() {
    let tracks = [track(1, false), track(2, true), track(3, false)];

    let ordered: Vec<i64> = audio_tracks_in_menu_order(&tracks)
        .into_iter()
        .map(|track| track.id)
        .collect();

    assert_eq!(ordered, [1, 3, 2]);
}

#[test]
fn audio_tracks_in_menu_order_preserves_non_selected_order() {
    let tracks = [
        track(10, false),
        track(20, false),
        track(30, false),
        track(40, true),
    ];

    let ordered: Vec<i64> = audio_tracks_in_menu_order(&tracks)
        .into_iter()
        .map(|track| track.id)
        .collect();

    assert_eq!(ordered, [10, 20, 30, 40]);
}

#[test]
fn audio_tracks_in_menu_order_of_no_tracks_is_empty() {
    assert!(audio_tracks_in_menu_order(&[]).is_empty());
}

#[test]
fn audio_track_button_label_marks_the_current_track() {
    assert_eq!(audio_track_button_label(&track(2, true)), "Audio 2 (current)");
    assert_eq!(audio_track_button_label(&track(3, false)), "Audio 3");
}

#[test]
fn playback_state_mutes_and_loads_only_when_ready() {
    let mut idle = PlaybackState::new(false);
    assert!(!idle.toggle_muted());
    assert!(!idle.muted);
    assert!(!idle.load_stream("http://a/b", "A"));
    assert!(!idle.is_playing());

    let mut state = PlaybackState::new(true);
    assert!(state.toggle_muted());
    assert!(state.muted);
    assert!(state.toggle_muted());
    assert!(!state.muted);
    assert!(!state.load_stream("   ", "A"));
    assert!(!state.can_act_on_stream());
    assert!(state.load_stream("http://a/b", "A"));
    assert!(state.is_playing());
    assert!(state.can_act_on_stream());
    assert_eq!(state.current_label.as_deref(), Some("A"));
    assert!(state.set_muted(true));
    assert!(state.muted);
}
