use tui_music::app::{App, Effect, Key, KeyPress};
use tui_music::library::{Playlist, Track};
use tui_music::player::RepeatMode;

fn playlist(n: usize) -> Playlist {
    Playlist {
        name: "test".into(),
        tracks: (0..n)
            .map(|i| Track {
                path: format!("/tmp/tui_music_test/t{}.wav", i),
                title: format!("t{}", i),
                artist: String::new(),
                duration_ms: 500,
            })
            .collect(),
    }
}

fn app_with(n: usize) -> App {
    let mut app = App::new(vec![playlist(n)], 1);
    if n > 0 {
        app.selected = Some(0);
    }
    app
}

/// Carries out a play request the way the audio side does when the file plays.
fn start(app: &mut App, e: Effect) {
    if let Effect::Play(i) = e {
        let v = app.play_started(i);
        assert_eq!(v, Effect::SetVolume(app.volume));
    }
}

fn key(c: char) -> KeyPress {
    KeyPress { code: Key::Char(c), ctrl: false }
}

#[test]
fn display_index_survives_search_refilter() {
    let mut app = app_with(4);
    let e = app.play_selected(); // plays track 0
    start(&mut app, e);
    assert_eq!(app.current_track, Some(0));

    // Type a search that hides the current track.
    app.enter_search();
    app.search_push('3'); // only track 3 matches
    assert_eq!(app.display, vec![3]);
    assert_eq!(app.current_view(), None);
    // current_track identity is preserved even though it's not visible.
    assert_eq!(app.current_track, Some(0));

    // Exiting search keeps the filter; identity is preserved even when hidden.
    app.exit_search(true);
    assert_eq!(app.current_track, Some(0));
    assert_eq!(app.current_view(), None);

    // Clearing the filter restores the correct view mapping.
    app.exit_search(false);
    assert_eq!(app.current_view(), Some(0));
}

#[test]
fn next_wraps_within_filtered_list() {
    let mut app = app_with(5);
    let e = app.play_selected();
    start(&mut app, e);
    let e = app.next();
    start(&mut app, e);
    assert_eq!(app.current_track, Some(1));
    let e = app.next();
    start(&mut app, e);
    assert_eq!(app.current_track, Some(2));
}

#[test]
fn shuffle_uses_full_permutation_no_mod_bias() {
    let mut app = app_with(100);
    app.shuffle = true;
    app.reset_shuffle();
    let mut q = app.shuffle_queue().to_vec();
    q.sort_unstable();
    assert_eq!(q, (0..100).collect::<Vec<_>>(), "must be a permutation");
}

#[test]
fn shuffle_skips_current_as_first() {
    let mut app = app_with(10);
    app.selected = Some(4);
    let e = app.play_selected();
    start(&mut app, e);
    assert_eq!(app.current_track, Some(4));
    app.shuffle = true;
    let e = app.next();
    start(&mut app, e);
    let got = app.current_track.unwrap();
    assert_ne!(got, 4, "shuffle must not immediately repeat the current track");
}

#[test]
fn corrupt_track_is_not_fatal() {
    let mut app = app_with(2);
    app.playlists[0].tracks[0].path = "/tmp/definitely_missing.mp3".to_string();
    app.selected = Some(0);
    let e = app.play_selected();
    assert_eq!(e, Effect::Play(0));
    // The audio side cannot open the file and reports it.
    app.play_failed("No such file or directory (os error 2)".to_string());
    assert!(app.error.is_some(), "error should be surfaced, not panic");
    assert_eq!(app.current_track, None);
    app.should_quit = false; // still alive
}

#[test]
fn failure_message_names_the_reason() {
    let mut app = app_with(1);
    app.play_failed("bad header".to_string());
    assert_eq!(app.error.as_deref(), Some("cannot play: bad header"));
    let e = app.play_selected();
    start(&mut app, e);
    assert_eq!(app.error, None);
    assert!(app.playing);
}

#[test]
fn starts_on_first_playlist_with_tracks() {
    let app = App::new(vec![playlist(0), playlist(3)], 7);
    assert_eq!(app.active_playlist, 1);
    assert_eq!(app.display, vec![0, 1, 2]);
    assert_eq!(app.selected, None);
    assert_eq!(app.volume, 60);
    assert_eq!(app.repeat, RepeatMode::All);
    assert_eq!(app.active_tracks().len(), 3);
    let empty = App::new(vec![], 7);
    assert_eq!(empty.active_playlist, 0);
    assert!(empty.display.is_empty());
    assert!(empty.active_tracks().is_empty());
}

#[test]
fn selection_wraps_both_ways() {
    let mut app = app_with(3);
    app.selected_mut(-1);
    assert_eq!(app.selected, Some(2));
    app.selected_mut(1);
    assert_eq!(app.selected, Some(0));
    app.selected = None;
    app.selected_mut(-1);
    assert_eq!(app.selected, Some(1));
    app.selected = None;
    app.selected_mut(1);
    assert_eq!(app.selected, Some(1));
    app.selected_mut(7);
    assert_eq!(app.selected, Some(2));
    app.selected_mut(-7);
    assert_eq!(app.selected, Some(1));
}

#[test]
fn playlist_switch_wraps_and_resets() {
    let mut app = App::new(vec![playlist(2), playlist(3), playlist(4)], 1);
    let e = app.play_track(1);
    start(&mut app, e);
    app.search_push('1');
    assert_eq!(app.switch_playlist(-1), Effect::Stop);
    assert_eq!(app.active_playlist, 2);
    assert_eq!(app.current_track, None);
    assert!(!app.playing);
    assert!(app.search.is_empty());
    assert_eq!(app.display, vec![0, 1, 2, 3]);
    app.switch_playlist(1);
    assert_eq!(app.active_playlist, 0);
    let mut single = app_with(2);
    assert_eq!(single.switch_playlist(1), Effect::Nothing);
    assert_eq!(single.active_playlist, 0);
}

#[test]
fn prev_wraps_to_last() {
    let mut app = app_with(3);
    let e = app.play_selected();
    start(&mut app, e);
    assert_eq!(app.prev(), Effect::Play(2));
    let mut empty = app_with(0);
    assert_eq!(empty.prev(), Effect::Nothing);
    assert_eq!(empty.next(), Effect::Nothing);
}

#[test]
fn out_of_range_track_is_ignored() {
    let app = app_with(2);
    assert_eq!(app.play_track(2), Effect::Nothing);
    assert_eq!(app.orig_of(5), None);
    assert_eq!(app.orig_of(1), Some(1));
}

#[test]
fn pause_and_resume() {
    let mut app = app_with(2);
    assert_eq!(app.toggle_pause(), Effect::Nothing);
    let e = app.play_selected();
    start(&mut app, e);
    assert_eq!(app.toggle_pause(), Effect::Pause);
    assert!(!app.playing);
    assert_eq!(app.toggle_pause(), Effect::Resume);
    assert!(app.playing);
}

#[test]
fn repeat_cycles_through_three_modes() {
    let mut app = app_with(1);
    assert_eq!(app.repeat, RepeatMode::All);
    app.cycle_repeat();
    assert_eq!(app.repeat, RepeatMode::One);
    app.cycle_repeat();
    assert_eq!(app.repeat, RepeatMode::Off);
    app.cycle_repeat();
    assert_eq!(app.repeat, RepeatMode::All);
}

#[test]
fn volume_is_clamped() {
    let mut app = app_with(1);
    assert_eq!(app.change_volume(5), Effect::SetVolume(65));
    assert_eq!(app.change_volume(-5), Effect::SetVolume(60));
    assert_eq!(app.change_volume(100), Effect::SetVolume(100));
    assert_eq!(app.change_volume(-300), Effect::SetVolume(0));
    assert_eq!(app.volume, 0);
}

#[test]
fn track_end_follows_repeat_mode() {
    let mut app = app_with(3);
    app.selected = Some(2);
    let e = app.play_selected();
    start(&mut app, e);
    // Still playing: nothing happens.
    assert_eq!(app.update(false), Effect::Nothing);
    // Repeat over the list: wraps to the first track.
    assert_eq!(app.update(true), Effect::Play(0));
    assert!(!app.playing);
    start(&mut app, Effect::Play(2));
    app.repeat = RepeatMode::One;
    assert_eq!(app.update(true), Effect::Play(2));
    start(&mut app, Effect::Play(2));
    app.repeat = RepeatMode::Off;
    assert_eq!(app.update(true), Effect::Nothing);
    assert!(!app.playing);
    start(&mut app, Effect::Play(1));
    assert_eq!(app.update(true), Effect::Play(2));
}

#[test]
fn keys_drive_the_player() {
    let mut app = app_with(3);
    assert_eq!(app.handle_key(KeyPress { code: Key::Down, ctrl: false }), Effect::Nothing);
    assert_eq!(app.selected, Some(1));
    assert_eq!(app.handle_key(key('k')), Effect::Nothing);
    assert_eq!(app.selected, Some(0));
    assert_eq!(app.handle_key(key('l')), Effect::Play(0));
    start(&mut app, Effect::Play(0));
    assert_eq!(app.handle_key(key('n')), Effect::Play(1));
    assert_eq!(app.handle_key(KeyPress { code: Key::BackTab, ctrl: false }), Effect::Play(2));
    assert_eq!(app.handle_key(key(' ')), Effect::Pause);
    assert_eq!(app.handle_key(key('+')), Effect::SetVolume(65));
    assert_eq!(app.handle_key(key('-')), Effect::SetVolume(60));
    app.handle_key(key('r'));
    assert_eq!(app.repeat, RepeatMode::One);
    app.handle_key(key('s'));
    assert!(app.shuffle);
    // Control-modified keys are ignored.
    assert_eq!(app.handle_key(KeyPress { code: Key::Char('q'), ctrl: true }), Effect::Nothing);
    assert!(!app.should_quit);
    // Search mode takes characters as text.
    app.handle_key(key('/'));
    assert!(app.search_active);
    app.handle_key(key('q'));
    app.handle_key(key('2'));
    assert_eq!(app.search, "q2");
    assert!(app.display.is_empty());
    assert_eq!(app.selected, None);
    app.handle_key(KeyPress { code: Key::Backspace, ctrl: false });
    app.handle_key(KeyPress { code: Key::Backspace, ctrl: false });
    app.handle_key(key('2'));
    assert_eq!(app.display, vec![2]);
    assert_eq!(app.selected, Some(0));
    app.handle_key(KeyPress { code: Key::Enter, ctrl: false });
    assert!(!app.search_active);
    assert_eq!(app.display, vec![2]);
    app.handle_key(key('f'));
    app.handle_key(KeyPress { code: Key::Esc, ctrl: false });
    assert_eq!(app.display, vec![0, 1, 2]);
    app.handle_key(key('q'));
    assert!(app.should_quit);
}

#[test]
fn search_round_trip_restores_display() {
    let mut app = app_with(12);
    let before = app.display.clone();
    app.search_push('1');
    assert_eq!(app.display, vec![1, 10, 11]);
    app.search_pop();
    assert_eq!(app.display, before);
    assert_eq!(app.search, "");
}

#[test]
fn search_matches_artist_and_folder_case_insensitively() {
    let mut app = App::new(
        vec![Playlist {
            name: "p".into(),
            tracks: vec![
                Track {
                    path: "/m/Rock/a.mp3".into(),
                    title: "Song".into(),
                    artist: "".into(),
                    duration_ms: 0,
                },
                Track {
                    path: "/m/Pop/b.mp3".into(),
                    title: "Other".into(),
                    artist: "ROCKER".into(),
                    duration_ms: 0,
                },
                Track {
                    path: "/m/Pop/c.mp3".into(),
                    title: "Third".into(),
                    artist: "".into(),
                    duration_ms: 0,
                },
            ],
        }],
        3,
    );
    app.search_push('r');
    app.search_push('O');
    app.search_push('c');
    assert_eq!(app.display, vec![0, 1]);
}

#[test]
fn prev_undoes_next() {
    let mut app = app_with(4);
    app.selected = Some(3);
    let e = app.play_selected();
    start(&mut app, e);
    let e = app.next();
    assert_eq!(e, Effect::Play(0));
    start(&mut app, e);
    assert_eq!(app.prev(), Effect::Play(3));
}

#[test]
fn shuffle_order_is_drawn_from_the_generator() {
    let mut a = app_with(8);
    let mut b = app_with(8);
    a.reset_shuffle();
    b.reset_shuffle();
    assert_eq!(a.shuffle_queue(), b.shuffle_queue());
    let r1 = a.next_rand();
    let r2 = a.next_rand();
    assert_ne!(r1, r2);
    // xorshift64* from state 1: one step of the generator gives 0x40822041, scrambled.
    let mut c = app_with(1);
    assert_eq!(c.next_rand(), 0x40822041u64.wrapping_mul(0x2545_F491_4F6C_DD1D));
    a.toggle_shuffle();
    assert!(a.shuffle_queue().is_empty());
}
