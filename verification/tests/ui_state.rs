use enigma2_player_core::common::player::window_chrome::{
    expands, resize_specs, should_begin_resize, HandleAlign, ResizeEdge,
};
use enigma2_player_core::ui::load_state::LoadGenerations;
use enigma2_player_core::ui::window_move::{controls_may_hide, window_move_step, PointerEvent};

#[test]
fn load_generations_drop_results_of_older_loads_and_closed_overlays() {
    let mut loads = LoadGenerations::new();
    let first = loads.next_load_generation();
    assert!(!loads.is_stale(first, true));
    assert!(loads.is_stale(first, false));
    let second = loads.next_load_generation();
    assert!(loads.is_stale(first, true));
    assert!(!loads.is_stale(second, true));
    loads.invalidate_loads();
    assert!(loads.is_stale(second, true));
}

#[test]
fn load_generations_wrap_around() {
    let mut loads = LoadGenerations { latest: u64::MAX };
    assert_eq!(loads.next_load_generation(), 0);
}

#[test]
fn resize_specs_cover_every_edge_once() {
    let specs = resize_specs();
    let edges: Vec<ResizeEdge> = specs.iter().map(|spec| spec.edge).collect();
    assert_eq!(
        edges,
        [
            ResizeEdge::North,
            ResizeEdge::South,
            ResizeEdge::West,
            ResizeEdge::East,
            ResizeEdge::NorthWest,
            ResizeEdge::NorthEast,
            ResizeEdge::SouthWest,
            ResizeEdge::SouthEast,
        ]
    );
    assert_eq!((specs[0].width, specs[0].height), (-1, 6));
    assert_eq!(specs[0].halign, HandleAlign::Fill);
    assert_eq!((specs[2].width, specs[2].height), (6, -1));
    assert_eq!((specs[7].width, specs[7].height), (12, 12));
    assert_eq!(specs[7].cursor, "se-resize");
    assert_eq!(specs[4].cursor, "nw-resize");
    assert!(expands(HandleAlign::Fill));
    assert!(!expands(HandleAlign::End));
    assert!(should_begin_resize(1, false));
    assert!(!should_begin_resize(2, false));
    assert!(!should_begin_resize(1, true));
}

#[test]
fn dragging_the_video_moves_the_window_once_per_press() {
    let press = PointerEvent::Press { button: Some(1), has_position: true };
    let step = window_move_step(false, press, false);
    assert!(step.armed && step.record_press && step.show_controls && !step.begin_move);

    let near = PointerEvent::Motion { primary_held: true, has_position: true, beyond_threshold: false };
    let step = window_move_step(true, near, false);
    assert!(step.armed && !step.begin_move);

    let far = PointerEvent::Motion { primary_held: true, has_position: true, beyond_threshold: true };
    let step = window_move_step(true, far, false);
    assert!(!step.armed && step.begin_move);
    assert!(!window_move_step(false, far, false).begin_move);

    let released = PointerEvent::Motion { primary_held: false, has_position: true, beyond_threshold: true };
    assert!(!window_move_step(true, released, false).armed);
    assert!(!window_move_step(true, PointerEvent::Release { button: Some(1) }, false).armed);
    assert!(window_move_step(true, PointerEvent::Release { button: Some(3) }, false).armed);

    let secondary = window_move_step(false, PointerEvent::Press { button: Some(3), has_position: true }, false);
    assert!(!secondary.armed && secondary.show_controls);

    let fullscreen = window_move_step(false, press, true);
    assert!(!fullscreen.armed && !fullscreen.show_controls && !fullscreen.record_press);
}

#[test]
fn controls_hide_only_without_open_overlays() {
    assert!(controls_may_hide(false, false, false));
    assert!(!controls_may_hide(true, false, false));
    assert!(!controls_may_hide(false, true, false));
    assert!(!controls_may_hide(false, false, true));
}
