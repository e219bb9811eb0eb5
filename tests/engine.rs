use rusted_player::engine::{PlaybackEngine, PlaybackError, PlayerAction, PlayerCommand, PlayerStatus, SinkState, DEFAULT_VOLUME, MAX_VOLUME};
use rusted_player::models::{Config, InputState, Playlist};

fn paths(names: &[&str]) -> Vec<String> {
    names.iter().map(|s| s.to_string()).collect()
}

#[test]
fn set_volume_above_range_is_clamped() {
    let mut e = PlaybackEngine::new();
    assert_eq!(e.handle(PlayerCommand::SetVolume(3000)), vec![PlayerAction::Emit(PlayerStatus::Volume(2000))]);
    assert_eq!(e.volume(), MAX_VOLUME);
    assert_eq!(e.handle(PlayerCommand::VolumeUp), vec![PlayerAction::Emit(PlayerStatus::Volume(2000))]);
}

#[test]
fn set_volume_below_range_is_clamped() {
    let mut e = PlaybackEngine::new();
    assert_eq!(e.handle(PlayerCommand::SetVolume(-500)), vec![PlayerAction::Emit(PlayerStatus::Volume(0))]);
    assert_eq!(e.handle(PlayerCommand::SetVolume(750)), vec![PlayerAction::Emit(PlayerStatus::Volume(750))]);
}

#[test]
fn volume_down_never_goes_below_zero() {
    let mut e = PlaybackEngine::new();
    e.handle(PlayerCommand::SetVolume(0));
    for _ in 0..5 {
        assert_eq!(e.handle(PlayerCommand::VolumeDown), vec![PlayerAction::Emit(PlayerStatus::Volume(0))]);
    }
    assert_eq!(e.volume(), 0);
}

#[test]
fn volume_steps_by_a_tenth() {
    let mut e = PlaybackEngine::new();
    assert_eq!(e.volume(), DEFAULT_VOLUME);
    assert_eq!(e.handle(PlayerCommand::VolumeUp), vec![PlayerAction::Emit(PlayerStatus::Volume(1100))]);
    assert_eq!(e.handle(PlayerCommand::VolumeDown), vec![PlayerAction::Emit(PlayerStatus::Volume(1000))]);
    e.handle(PlayerCommand::SetVolume(50));
    assert_eq!(e.handle(PlayerCommand::VolumeDown), vec![PlayerAction::Emit(PlayerStatus::Volume(0))]);
    e.handle(PlayerCommand::SetVolume(1950));
    assert_eq!(e.handle(PlayerCommand::VolumeUp), vec![PlayerAction::Emit(PlayerStatus::Volume(2000))]);
}

#[test]
fn volume_reaches_a_live_sink() {
    let mut e = PlaybackEngine::new();
    e.handle(PlayerCommand::PlaySong("/m/a.mp3".to_string()));
    assert_eq!(e.decoded(true), vec![]);
    assert_eq!(
        e.handle(PlayerCommand::SetVolume(500)),
        vec![PlayerAction::SetSinkVolume(500), PlayerAction::Emit(PlayerStatus::Volume(500))]
    );
}

#[test]
fn play_list_skips_a_corrupt_file() {
    let mut e = PlaybackEngine::new();
    let list = paths(&["/m/1.mp3", "/m/bad.mp3", "/m/3.mp3"]);
    assert_eq!(
        e.handle(PlayerCommand::PlayAlbum(list)),
        vec![PlayerAction::OpenSink(DEFAULT_VOLUME), PlayerAction::Decode("/m/1.mp3".to_string(), false)]
    );
    assert!(e.is_loading());
    assert_eq!(e.decoded(true), vec![PlayerAction::Decode("/m/bad.mp3".to_string(), false)]);
    assert_eq!(e.decoded(false), vec![PlayerAction::Decode("/m/3.mp3".to_string(), false)]);
    assert_eq!(e.decoded(true), vec![]);
    assert!(!e.is_loading());
    assert_eq!(e.sink(), Some(SinkState { paused: false }));
}

#[test]
fn play_list_of_undecodable_files_leaves_no_sink() {
    let mut e = PlaybackEngine::new();
    e.handle(PlayerCommand::PlayAlbum(paths(&["/m/x", "/m/y"])));
    assert_eq!(e.decoded(false), vec![PlayerAction::Decode("/m/y".to_string(), false)]);
    assert_eq!(e.decoded(false), vec![PlayerAction::ReleaseSink]);
    assert_eq!(e.sink(), None);
}

#[test]
fn empty_list_releases_the_previous_sink() {
    let mut e = PlaybackEngine::new();
    e.handle(PlayerCommand::PlaySong("/m/a.mp3".to_string()));
    e.decoded(true);
    assert_eq!(e.handle(PlayerCommand::PlayAlbum(vec![])), vec![PlayerAction::ReleaseSink]);
    assert_eq!(e.sink(), None);
}

#[test]
fn new_load_releases_the_previous_sink_first() {
    let mut e = PlaybackEngine::new();
    e.handle(PlayerCommand::PlaySong("/m/a.mp3".to_string()));
    e.decoded(true);
    assert_eq!(
        e.handle(PlayerCommand::PlaySong("/m/b.mp3".to_string())),
        vec![
            PlayerAction::ReleaseSink,
            PlayerAction::OpenSink(DEFAULT_VOLUME),
            PlayerAction::Decode("/m/b.mp3".to_string(), false),
        ]
    );
}

#[test]
fn single_file_is_retried_with_a_reduced_buffer() {
    let mut e = PlaybackEngine::new();
    e.handle(PlayerCommand::PlaySong("/m/a.mp3".to_string()));
    assert_eq!(e.decoded(false), vec![PlayerAction::Decode("/m/a.mp3".to_string(), true)]);
    assert_eq!(e.decoded(true), vec![]);
    assert_eq!(e.sink(), Some(SinkState { paused: false }));
}

#[test]
fn single_file_gives_up_after_the_retry() {
    let mut e = PlaybackEngine::new();
    e.handle(PlayerCommand::PlaySong("/m/a.mp3".to_string()));
    e.decoded(false);
    assert_eq!(
        e.decoded(false),
        vec![PlayerAction::ReleaseSink, PlayerAction::Failed(PlaybackError::DecodeFailure)]
    );
    assert_eq!(e.sink(), None);
    assert!(!e.is_loading());
}

#[test]
fn stop_then_toggle_pause_does_nothing() {
    let mut e = PlaybackEngine::new();
    e.handle(PlayerCommand::PlaySong("/m/a.mp3".to_string()));
    e.decoded(true);
    assert_eq!(e.handle(PlayerCommand::Stop), vec![PlayerAction::ReleaseSink]);
    assert_eq!(e.handle(PlayerCommand::TogglePause), vec![]);
    assert_eq!(e.sink(), None);
}

#[test]
fn toggle_pause_flips_a_live_sink() {
    let mut e = PlaybackEngine::new();
    assert_eq!(e.handle(PlayerCommand::TogglePause), vec![]);
    e.handle(PlayerCommand::PlaySong("/m/a.mp3".to_string()));
    e.decoded(true);
    assert_eq!(e.handle(PlayerCommand::TogglePause), vec![PlayerAction::Pause]);
    assert_eq!(e.sink(), Some(SinkState { paused: true }));
    assert_eq!(e.handle(PlayerCommand::TogglePause), vec![PlayerAction::Resume]);
    assert_eq!(e.sink(), Some(SinkState { paused: false }));
}

#[test]
fn skip_next_needs_a_sink() {
    let mut e = PlaybackEngine::new();
    assert_eq!(e.handle(PlayerCommand::SkipNext), vec![]);
    e.handle(PlayerCommand::PlayAlbum(paths(&["/m/1.mp3", "/m/2.mp3"])));
    e.decoded(true);
    e.decoded(true);
    assert_eq!(e.handle(PlayerCommand::SkipNext), vec![PlayerAction::SkipOne]);
}

#[test]
fn shuffle_plays_every_path_once() {
    let mut e = PlaybackEngine::new();
    let list = paths(&["/m/1.mp3", "/m/2.mp3", "/m/3.mp3", "/m/4.mp3"]);
    let mut seen = Vec::new();
    let mut actions = e.handle(PlayerCommand::PlayShuffle(list.clone()));
    assert_eq!(actions[0], PlayerAction::OpenSink(DEFAULT_VOLUME));
    actions.remove(0);
    while let Some(PlayerAction::Decode(p, false)) = actions.pop() {
        seen.push(p);
        actions = e.decoded(true);
    }
    seen.sort();
    assert_eq!(seen, list);
}

#[test]
fn quit_ends_command_processing() {
    let mut e = PlaybackEngine::new();
    e.handle(PlayerCommand::PlaySong("/m/a.mp3".to_string()));
    e.decoded(true);
    assert_eq!(e.handle(PlayerCommand::Quit), vec![PlayerAction::ReleaseSink]);
    assert!(!e.is_running());
    assert_eq!(e.handle(PlayerCommand::SetVolume(100)), vec![]);
    assert_eq!(e.handle(PlayerCommand::PlaySong("/m/b.mp3".to_string())), vec![]);
    assert_eq!(e.volume(), DEFAULT_VOLUME);
}

#[test]
fn key_presses_are_debounced() {
    let mut input = InputState::new(1_000);
    assert!(!input.can_process_key(1_050));
    assert!(!input.can_process_key(1_100));
    assert!(input.can_process_key(1_101));
    assert_eq!(input.last_key_press, 1_101);
    assert!(!input.can_process_key(900));
}

#[test]
fn default_config_has_no_path() {
    assert_eq!(Config::default().music_path, "");
    let p = Playlist { name: "mix".to_string(), tracks: vec!["/m/1.mp3".to_string()] };
    assert_eq!(p.clone().tracks.len(), 1);
}
