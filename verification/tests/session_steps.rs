use media_center::player::{PlaybackState, PlaybackStatus};
use media_center::session::{
    update_resume_cache_entry, HoldAction, HoldState, PlayerSession, RefreshState, SessionAction,
};

fn playing(path: &str, position_ms: u64) -> PlaybackState {
    PlaybackState {
        path: Some(path.to_string()),
        status: PlaybackStatus::Playing,
        position_ms,
        duration_ms: Some(600_000),
        ..Default::default()
    }
}

#[test]
fn pausing_saves_the_position_once() {
    let mut session = PlayerSession::new(0);
    session.enter_player();
    assert!(session.on_state(playing("/v/a.mkv", 1_000)).is_empty());
    let mut paused = playing("/v/a.mkv", 2_000);
    paused.status = PlaybackStatus::Paused;
    let actions = session.on_state(paused);
    assert_eq!(actions.len(), 1);
    assert!(matches!(&actions[0], SessionAction::PersistResume { path, position_ms: 2_000, .. } if path == "/v/a.mkv"));
    let mut again = playing("/v/a.mkv", 2_000);
    again.status = PlaybackStatus::Paused;
    assert!(session.on_state(again).is_empty());
}

#[test]
fn ticks_save_every_interval_while_playing() {
    let mut session = PlayerSession::new(0);
    assert!(session.on_tick(100_000).is_empty());
    session.enter_player();
    session.on_state(playing("/v/a.mkv", 5_000));
    assert_eq!(session.on_tick(10_000).len(), 1);
    let actions = session.on_tick(15_000);
    assert_eq!(actions.len(), 2);
    assert_eq!(session.last_save_ms, 15_000);
    assert_eq!(session.on_tick(20_000).len(), 1);
}

#[test]
fn stopping_saves_and_leaves_the_player() {
    let mut session = PlayerSession::new(0);
    session.enter_player();
    session.on_state(playing("/v/a.mkv", 5_000));
    let actions = session.on_stopped();
    assert_eq!(actions.len(), 3);
    assert!(matches!(actions[2], SessionAction::ExitPlayer));
    assert!(!session.active);
    assert_eq!(session.last_state.path, None);
}

#[test]
fn hold_clears_only_for_its_own_timer() {
    let mut hold = HoldState::new();
    assert!(matches!(hold.on_hold_started(true, Some("/v/a.mkv".to_string()), true), HoldAction::Nothing));
    assert!(matches!(hold.on_hold_started(false, Some("/v/a.mkv".to_string()), false), HoldAction::Nothing));
    let started = hold.on_hold_started(false, Some("/v/a.mkv".to_string()), true);
    let generation = match started {
        HoldAction::StartTimer { generation, .. } => generation,
        _ => panic!("hold should start"),
    };
    assert!(matches!(hold.on_hold_started(false, Some("/v/a.mkv".to_string()), true), HoldAction::Nothing));
    assert!(matches!(hold.on_timer_fired(generation, "/v/a.mkv".to_string()), HoldAction::ClearResume { .. }));
    let g2 = match hold.on_hold_started(false, Some("/v/b.mkv".to_string()), true) {
        HoldAction::StartTimer { generation, .. } => generation,
        _ => panic!("hold should start"),
    };
    assert!(matches!(hold.on_hold_ended(), HoldAction::CancelTimer));
    assert!(matches!(hold.on_timer_fired(g2, "/v/b.mkv".to_string()), HoldAction::Nothing));
}

#[test]
fn rescans_wait_for_a_quiet_disk() {
    let mut refresh = RefreshState::new();
    refresh.on_change(1_000);
    assert!(!refresh.on_tick(5_000));
    refresh.on_build_finished(true, 5_000);
    assert!(!refresh.on_tick(1_500));
    assert!(refresh.on_tick(1_800));
    assert!(!refresh.on_tick(1_900));
    refresh.on_build_finished(false, 2_000);
    assert!(!refresh.on_tick(2_500));
    assert!(refresh.on_tick(2_800));
}

#[test]
fn resume_cache_entries_are_replaced_or_removed() {
    let mut cache = vec![("/v/a.mkv".to_string(), 5), ("/v/b.mkv".to_string(), 7)];
    update_resume_cache_entry(&mut cache, "/v/a.mkv".to_string(), 9, Some(100));
    assert_eq!(cache, vec![("/v/b.mkv".to_string(), 7), ("/v/a.mkv".to_string(), 9)]);
    update_resume_cache_entry(&mut cache, "/v/b.mkv".to_string(), 100, Some(100));
    assert_eq!(cache, vec![("/v/a.mkv".to_string(), 9)]);
}

#[test]
fn resume_cache_keys_are_compared_as_paths() {
    let mut cache = vec![("/v/a.mkv".to_string(), 5)];
    update_resume_cache_entry(&mut cache, "/v//./a.mkv".to_string(), 9, Some(100));
    assert_eq!(cache, vec![("/v//./a.mkv".to_string(), 9)]);
    update_resume_cache_entry(&mut cache, "/v/a.mkv".to_string(), 0, Some(100));
    assert!(cache.is_empty());
}
