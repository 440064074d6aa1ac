use media_center::player::{
    apply_command, current_audio_label, current_subtitle_label, end_of_file, format_track_label,
    label_for_track_id, prop_string, refresh_tracks, sync_state_from_player, PlaybackState,
    PlaybackStatus, PlayerCommand, PlayerOp, TrackEntry, TrackKind,
};

fn entry(kind: &str, id: i64, title: Option<&str>, lang: Option<&str>) -> TrackEntry {
    TrackEntry {
        kind: Some(kind.to_string()),
        id: Some(id),
        title: title.map(|s| s.to_string()),
        lang: lang.map(|s| s.to_string()),
    }
}

#[test]
fn seek_delta_clamps_at_zero_and_duration() {
    let mut state = PlaybackState { duration_ms: Some(60_000), position_ms: 5_000, ..Default::default() };
    state.apply_seek_delta(-10_000);
    assert_eq!(state.position_ms, 0);
    state.apply_seek_delta(100_000);
    assert_eq!(state.position_ms, 60_000);
}

#[test]
fn seek_to_stops_at_the_duration() {
    let mut state = PlaybackState { duration_ms: Some(60_000), ..Default::default() };
    state.apply_seek_to(30_000);
    assert_eq!(state.position_ms, 30_000);
    state.apply_seek_to(90_000);
    assert_eq!(state.position_ms, 60_000);
    let mut unknown = PlaybackState::default();
    unknown.apply_seek_to(90_000);
    assert_eq!(unknown.position_ms, 90_000);
}

#[test]
fn seek_delta_without_duration_cannot_go_forward() {
    let mut state = PlaybackState { position_ms: 5_000, ..Default::default() };
    state.apply_seek_delta(1_000);
    assert_eq!(state.position_ms, 5_000);
    state.apply_seek_delta(-1_000);
    assert_eq!(state.position_ms, 4_000);
}

#[test]
fn label_prefers_title() {
    assert_eq!(format_track_label(Some("Commentary"), Some("eng"), "Audio"), "Commentary");
}

#[test]
fn label_falls_back_to_language() {
    assert_eq!(format_track_label(None, Some("fra"), "Subtitle"), "Subtitle (fra)");
}

#[test]
fn label_with_nothing_is_the_fallback() {
    assert_eq!(format_track_label(Some(""), Some(""), "Track"), "Track");
}

#[test]
fn empty_and_no_properties_are_missing() {
    assert_eq!(prop_string(Some("no".to_string())), None);
    assert_eq!(prop_string(Some(String::new())), None);
    assert_eq!(prop_string(Some("eng".to_string())), Some("eng".to_string()));
    assert_eq!(prop_string(None), None);
}

#[test]
fn track_labels_come_from_the_track_list() {
    let entries = vec![
        entry("video", 1, None, None),
        entry("audio", 1, Some("Director"), Some("eng")),
        entry("audio", 2, None, Some("fra")),
        entry("sub", 1, None, None),
    ];
    assert_eq!(label_for_track_id(&entries, 2, "audio", "Audio"), "Audio (fra)");
    assert_eq!(label_for_track_id(&entries, 7, "audio", "Audio"), "Audio #7");
    assert_eq!(label_for_track_id(&entries, -3, "sub", "Subtitle"), "Subtitle #-3");
    assert_eq!(current_audio_label(&entries, Some(1)), "Director");
    assert_eq!(current_audio_label(&entries, None), "Audio");
    assert_eq!(current_subtitle_label(&entries, None), "Subtitles off");
    assert_eq!(current_subtitle_label(&entries, Some(1)), "Subtitle");
}

#[test]
fn refresh_splits_audio_and_subtitle_tracks() {
    let entries = vec![
        entry("audio", 1, Some("Main"), Some("eng")),
        TrackEntry { kind: Some("audio".to_string()), id: None, title: None, lang: None },
        entry("sub", 3, None, Some("fra")),
        entry("video", 1, None, None),
    ];
    let mut state = PlaybackState::default();
    refresh_tracks(&mut state, &entries, Some(1), None);
    assert_eq!(state.audio_tracks.len(), 1);
    assert_eq!(state.audio_tracks[0].label, "Main");
    assert_eq!(state.subtitle_tracks.len(), 1);
    assert_eq!(state.subtitle_tracks[0].index, 3);
    assert_eq!(state.subtitle_tracks[0].label, "Track (fra)");
    assert_eq!(state.selected_audio, 1);
    assert_eq!(state.selected_subtitle, None);
}

#[test]
fn open_then_toggle_then_stop() {
    let mut state = PlaybackState::default();
    let out = apply_command(
        &mut state,
        PlayerCommand::Open {
            path: "/v/a.mkv".to_string(),
            title: "a".to_string(),
            resume_ms: Some(42_000),
            duration_ms: Some(100_000),
        },
        false,
        0,
        0,
    );
    assert_eq!(out.ops.len(), 4);
    assert!(matches!(out.ops[1], PlayerOp::SetStartMs(42_000)));
    assert!(matches!(&out.ops[2], PlayerOp::LoadFile(p) if p == "/v/a.mkv"));
    assert_eq!(state.status, PlaybackStatus::Playing);
    assert_eq!(state.position_ms, 42_000);

    let out = apply_command(&mut state, PlayerCommand::TogglePause, false, 0, 0);
    assert!(matches!(out.ops[0], PlayerOp::SetPause(true)));
    assert_eq!(state.status, PlaybackStatus::Paused);

    let out = apply_command(&mut state, PlayerCommand::Stop, true, 0, 0);
    assert!(out.stopped);
    assert_eq!(state.path, None);
    assert_eq!(state.status, PlaybackStatus::Stopped);
}

#[test]
fn cycling_needs_more_than_one_audio_track_and_any_subtitle() {
    let mut state = PlaybackState::default();
    let out = apply_command(&mut state, PlayerCommand::CycleAudioTrack, false, 1, 0);
    assert!(out.ops.is_empty());
    assert_eq!(out.toast, None);
    let out = apply_command(&mut state, PlayerCommand::CycleAudioTrack, false, 2, 0);
    assert!(matches!(out.ops[0], PlayerOp::Cycle(TrackKind::Audio)));
    assert_eq!(out.toast, Some(TrackKind::Audio));
    let out = apply_command(&mut state, PlayerCommand::CycleSubtitleTrack, false, 2, 0);
    assert!(out.ops.is_empty());
    let out = apply_command(&mut state, PlayerCommand::CycleSubtitleTrack, false, 2, 1);
    assert_eq!(out.toast, Some(TrackKind::Subtitle));
}

#[test]
fn end_of_file_stops_only_a_loaded_file() {
    let mut idle = PlaybackState::default();
    assert!(!end_of_file(&mut idle));
    let mut state = PlaybackState { path: Some("/v/a.mkv".to_string()), position_ms: 10, ..Default::default() };
    assert!(end_of_file(&mut state));
    assert_eq!(state.path, None);
    assert_eq!(state.position_ms, 0);
}

#[test]
fn sync_takes_over_what_the_engine_reports() {
    let mut state = PlaybackState { path: Some("/v/a.mkv".to_string()), duration_ms: Some(5), ..Default::default() };
    sync_state_from_player(&mut state, true, 1_234, None);
    assert_eq!(state.status, PlaybackStatus::Paused);
    assert_eq!(state.position_ms, 1_234);
    assert_eq!(state.duration_ms, Some(5));
    sync_state_from_player(&mut state, false, 2_000, Some(90_000));
    assert_eq!(state.status, PlaybackStatus::Playing);
    assert_eq!(state.duration_ms, Some(90_000));
    let mut idle = PlaybackState::default();
    sync_state_from_player(&mut idle, false, 2_000, Some(90_000));
    assert_eq!(idle.position_ms, 0);
}
