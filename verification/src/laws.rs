//! Properties of the player's state machine that span operations.
use vstd::prelude::*;

use crate::app::{
    after_change_volume, after_cycle_repeat, after_exit_search, after_next, after_play_started,
    after_prev, after_search_pop, after_search_push, after_selected_mut, after_switch_playlist,
    after_tick, after_toggle_pause, after_toggle_shuffle, all_indices, app_wf, current_view_of,
    equals, first_index_where, lemma_filter_from, lemma_first_index_where_at,
    lemma_first_index_where_range, lemma_rebuilt_wf, lemma_visible_in_range, matches_query,
    tracks_of, visible, after_key, after_reset_shuffle, is_permutation, law_shuffle_order,
    play_selected_effect, AppView, Effect, Key, KeyPress,
};
use crate::library::{display_name_of, file_name_of, file_stem_of, parent_of, subtitle_of, TrackView};
use crate::player::RepeatMode;
use crate::text::{has_substring, lowercase, occurs_at};

verus! {

/// The display list is exactly the search result: a track of the active
/// playlist is shown if and only if the search is empty or the track's
/// display name or subtitle contains the lower-cased search.
pub proof fn law_display_is_search_result(s: AppView, i: usize)
    requires
        app_wf(s),
        i < tracks_of(s).len(),
    ensures
        s.display.contains(i) <==> (s.search.len() == 0 || matches_query(
            tracks_of(s)[i as int],
            lowercase(s.search),
        )),
{
    let tracks = tracks_of(s);
    let all = all_indices(tracks.len());
    assert(all[i as int] == i);
    if s.search.len() > 0 {
        let p = |j: usize| matches_query(tracks[j as int], lowercase(s.search));
        #[allow(deprecated)]
        all.filter_lemma(p);
        if s.display.contains(i) {
            let v = choose|v: int| 0 <= v < s.display.len() && s.display[v] == i;
            assert(p(all.filter(p)[v]));
        }
    }
}

/// Deleting a character just typed into the search restores the search
/// and the display list.
pub proof fn law_search_round_trip(s: AppView, c: char)
    requires
        app_wf(s),
    ensures
        after_search_pop(after_search_push(s, c)).search == s.search,
        after_search_pop(after_search_push(s, c)).display == s.display,
{
    assert(s.search.push(c).drop_last() =~= s.search);
}

/// Leaving search mode without keeping the filter shows every track of the
/// active playlist again, in order.
pub proof fn law_clear_search_shows_all(s: AppView)
    requires
        app_wf(s),
    ensures
        after_exit_search(s, false).display == all_indices(tracks_of(s).len()),
        after_exit_search(s, false).search.len() == 0,
        !after_exit_search(s, false).search_active,
{
}

/// Editing or leaving the search never changes which track is playing.
pub proof fn law_search_keeps_current_track(s: AppView, c: char, keep: bool)
    ensures
        after_search_push(s, c).current_track == s.current_track,
        after_search_pop(s).current_track == s.current_track,
        after_exit_search(s, keep).current_track == s.current_track,
{
}

/// Once the search is cleared, the playing track is shown again, at its own
/// index in the playlist.
pub proof fn law_clear_search_restores_current_view(s: AppView)
    requires
        app_wf(s),
        s.current_track is Some,
    ensures
        current_view_of(after_exit_search(s, false)) == Some(s.current_track->0 as int),
{
    let c = s.current_track->0;
    let t = after_exit_search(s, false);
    assert(t.display == all_indices(tracks_of(s).len()));
    assert(t.display[c as int] == c);
    assert forall|k: int| 0 <= k < c implies !(#[trigger] equals(c)(t.display[k])) by {
        assert(t.display[k] == k as usize);
    }
    lemma_first_index_where_at(t.display, equals(c), c as int);
}

/// Without shuffle, going forward from the last track shown wraps around to
/// the first one shown.
pub proof fn law_next_wraps(s: AppView)
    requires
        app_wf(s),
        !s.shuffle,
        s.display.len() > 0,
        current_view_of(s) == Some(s.display.len() - 1),
    ensures
        after_next(s).1 == Effect::Play(s.display[0]),
{
    let n = s.display.len() as int;
    vstd::arithmetic::div_mod::lemma_mod_self_0(n);
    lemma_visible_in_range(tracks_of(s), s.search);
}

/// Three presses of the repeat key come back to the starting mode.
pub proof fn law_repeat_cycle(s: AppView)
    ensures
        after_cycle_repeat(after_cycle_repeat(after_cycle_repeat(s))) == s,
{
    assert(after_cycle_repeat(after_cycle_repeat(after_cycle_repeat(s))) =~= s);
}

/// Toggling shuffle twice restores the shuffle setting.
pub proof fn law_shuffle_toggle_twice(s: AppView)
    ensures
        after_toggle_shuffle(after_toggle_shuffle(s)).shuffle == s.shuffle,
{
}

proof fn lemma_mod_back(v: int, d: int, n: int)
    requires
        0 <= v < n,
    ensures
        ((v + d) % n - d) % n == v,
{
    let x = (v + d) % n;
    let q = (v + d) / n;
    vstd::arithmetic::div_mod::lemma_fundamental_div_mod(v + d, n);
    assert(n * (-q) == -(n * q)) by (nonlinear_arith);
    assert(x - d == n * (-q) + v);
    vstd::arithmetic::div_mod::lemma_mod_multiples_vanish(-q, v, n);
    vstd::arithmetic::div_mod::lemma_small_mod(v as nat, n as nat);
}

/// Moving the selection by `d` and then by `-d` comes back to the same entry.
pub proof fn law_selection_round_trip(s: AppView, d: i32)
    requires
        app_wf(s),
        s.selected is Some,
        s.display.len() <= usize::MAX,
        d > i32::MIN,
    ensures
        after_selected_mut(after_selected_mut(s, d), (-d) as i32).selected == s.selected,
{
    let n = s.display.len() as int;
    let v = s.selected->0 as int;
    lemma_mod_back(v, d as int, n);
    vstd::arithmetic::div_mod::lemma_mod_bound(v + d, n);
    let t = after_selected_mut(s, d);
    let x = (v + d) % n;
    assert(t.selected == Some(x as usize));
    assert(((-d) as i32) as int == -(d as int));
    vstd::arithmetic::div_mod::lemma_mod_bound(x - d, n);
}

/// Switching playlists by `d` and then by `-d` comes back to the same playlist.
pub proof fn law_playlist_round_trip(s: AppView, d: i32)
    requires
        app_wf(s),
        s.playlists.len() > 1,
        s.playlists.len() <= usize::MAX,
        d > i32::MIN,
    ensures
        after_switch_playlist(after_switch_playlist(s, d).0, (-d) as i32).0.active_playlist
            == s.active_playlist,
        after_switch_playlist(after_switch_playlist(s, d).0, (-d) as i32).0.display
            == all_indices(tracks_of(s).len()),
        after_switch_playlist(after_switch_playlist(s, d).0, (-d) as i32).0.search.len() == 0,
{
    let n = s.playlists.len() as int;
    let v = s.active_playlist as int;
    lemma_mod_back(v, d as int, n);
    vstd::arithmetic::div_mod::lemma_mod_bound(v + d, n);
    let t = after_switch_playlist(s, d).0;
    let x = (v + d) % n;
    assert(t.active_playlist == x as usize);
    assert(t.playlists == s.playlists);
    assert(((-d) as i32) as int == -(d as int));
    vstd::arithmetic::div_mod::lemma_mod_bound(x - d, n);
}

/// The volume stays within `0..=100`, and a step up followed by a step down
/// restores it when neither step hit a bound.
pub proof fn law_volume(s: AppView, d: i32)
    requires
        app_wf(s),
    ensures
        after_change_volume(s, d).0.volume <= 100,
        5 <= s.volume <= 95 ==> after_change_volume(after_change_volume(s, 5).0, -5i32).0.volume
            == s.volume,
{
}

/// Pausing and resuming a loaded track returns to the same playing state.
pub proof fn law_pause_round_trip(s: AppView)
    requires
        app_wf(s),
        s.current_track is Some,
    ensures
        after_toggle_pause(after_toggle_pause(s).0).0.playing == s.playing,
{
}

/// Every playlist and the lists of the state fit in memory.
pub open spec fn sizes_fit(s: AppView) -> bool {
    &&& s.display.len() <= usize::MAX
    &&& s.playlists.len() <= usize::MAX
    &&& forall|i: int| 0 <= i < s.playlists.len() ==> (#[trigger] s.playlists[i]).tracks.len() <= usize::MAX
}

proof fn lemma_switch_wf(s: AppView, d: i32)
    requires
        app_wf(s),
        sizes_fit(s),
    ensures
        app_wf(after_switch_playlist(s, d).0),
        sizes_fit(after_switch_playlist(s, d).0),
{
    let n = s.playlists.len() as int;
    if n > 1 {
        vstd::arithmetic::div_mod::lemma_mod_bound(s.active_playlist + d, n);
        let next = ((s.active_playlist + d) % n) as usize;
        let t = AppView {
            active_playlist: next,
            playing: false,
            current_track: None,
            shuffle_queue: Seq::empty(),
            search: Seq::empty(),
            error: None,
            ..s
        };
        lemma_rebuilt_wf(t);
        lemma_visible_in_range(tracks_of(t), t.search);
    }
}

proof fn lemma_selected_wf(s: AppView, d: i32)
    requires
        app_wf(s),
        sizes_fit(s),
    ensures
        app_wf(after_selected_mut(s, d)),
        sizes_fit(after_selected_mut(s, d)),
{
    let n = s.display.len() as int;
    if n > 0 {
        vstd::arithmetic::div_mod::lemma_mod_bound(
            crate::app::selection_start(s, d) + d,
            n,
        );
    }
}

proof fn lemma_next_wf(s: AppView)
    requires
        app_wf(s),
        sizes_fit(s),
    ensures
        app_wf(after_next(s).0),
        sizes_fit(after_next(s).0),
{
}

proof fn lemma_search_wf(s: AppView, c: char, keep: bool)
    requires
        app_wf(s),
        sizes_fit(s),
    ensures
        app_wf(after_search_push(s, c)),
        app_wf(after_search_pop(s)),
        app_wf(after_exit_search(s, keep)),
        sizes_fit(after_search_push(s, c)),
        sizes_fit(after_search_pop(s)),
        sizes_fit(after_exit_search(s, keep)),
{
    lemma_rebuilt_wf(AppView { search: s.search.push(c), ..s });
    lemma_visible_in_range(tracks_of(s), s.search.push(c));
    lemma_rebuilt_wf(
        AppView {
            search: if s.search.len() > 0 {
                s.search.drop_last()
            } else {
                s.search
            },
            ..s
        },
    );
    lemma_visible_in_range(
        tracks_of(s),
        if s.search.len() > 0 {
            s.search.drop_last()
        } else {
            s.search
        },
    );
    lemma_rebuilt_wf(AppView { search: Seq::empty(), search_active: false, ..s });
    lemma_visible_in_range(tracks_of(s), Seq::empty());
    lemma_visible_in_range(tracks_of(s), s.search);
}

proof fn lemma_tracks_fit(s: AppView)
    requires
        sizes_fit(s),
    ensures
        tracks_of(s).len() <= usize::MAX,
{
    if s.active_playlist < s.playlists.len() {
        assert(s.playlists[s.active_playlist as int].tracks.len() <= usize::MAX);
    }
}

/// Every key press keeps the state's invariant: the display list is the
/// search result over the active playlist, strictly increasing, the
/// selection and the current track are in range, and the volume is within
/// `0..=100`.
pub proof fn law_key_keeps_invariant(s: AppView, k: KeyPress)
    requires
        app_wf(s),
        sizes_fit(s),
    ensures
        app_wf(after_key(s, k).0),
        forall|i: int, j: int|
            0 <= i < j < after_key(s, k).0.display.len() ==> after_key(s, k).0.display[i]
                < after_key(s, k).0.display[j],
{
    lemma_switch_wf(s, 1);
    lemma_switch_wf(s, -1i32);
    lemma_selected_wf(s, 1);
    lemma_selected_wf(s, -1i32);
    lemma_next_wf(s);
    if let crate::app::Key::Char(c) = k.code {
        lemma_search_wf(s, c, true);
    }
    lemma_search_wf(s, ' ', true);
    lemma_search_wf(s, ' ', false);
    let t = after_key(s, k).0;
    lemma_tracks_fit(t);
    law_display_increasing(tracks_of(t), t.search);
}

/// A clock tick keeps the state's invariant.
pub proof fn law_tick_keeps_invariant(s: AppView, finished: bool)
    requires
        app_wf(s),
        sizes_fit(s),
    ensures
        app_wf(after_tick(s, finished).0),
        forall|i: int, j: int|
            0 <= i < j < after_tick(s, finished).0.display.len() ==> after_tick(
                s,
                finished,
            ).0.display[i] < after_tick(s, finished).0.display[j],
{
    lemma_next_wf(AppView { playing: false, ..s });
    let t = after_tick(s, finished).0;
    lemma_tracks_fit(t);
    law_display_increasing(tracks_of(t), t.search);
}

/// The display list is strictly increasing.
pub proof fn law_display_increasing(tracks: Seq<TrackView>, search: Seq<char>)
    requires
        tracks.len() <= usize::MAX + 1,
    ensures
        forall|i: int, j: int|
            0 <= i < j < visible(tracks, search).len() ==> visible(tracks, search)[i]
                < visible(tracks, search)[j],
{
    let all = all_indices(tracks.len());
    if search.len() > 0 {
        lemma_filter_increasing(all, |i: usize| matches_query(tracks[i as int], lowercase(search)));
    }
}

proof fn lemma_filter_increasing(s: Seq<usize>, p: spec_fn(usize) -> bool)
    requires
        forall|i: int, j: int| 0 <= i < j < s.len() ==> s[i] < s[j],
    ensures
        forall|i: int, j: int| 0 <= i < j < s.filter(p).len() ==> s.filter(p)[i] < s.filter(p)[j],
    decreases s.len(),
{
    reveal(Seq::filter);
    if s.len() > 0 {
        let t = s.drop_last();
        lemma_filter_increasing(t, p);
        lemma_filter_from(t, p);
        let f = s.filter(p);
        assert forall|i: int, j: int| 0 <= i < j < f.len() implies f[i] < f[j] by {
            if j == t.filter(p).len() {
                let k = choose|k: int| 0 <= k < t.len() && #[trigger] t.filter(p)[i] == t[k];
                assert(f[i] == t[k]);
            }
        }
    }
}

/// Without shuffle, going back after going forward returns to the track
/// that was playing, provided it is shown and the forward move started.
pub proof fn law_prev_undoes_next(s: AppView, o: usize)
    requires
        app_wf(s),
        !s.shuffle,
        current_view_of(s) is Some,
        tracks_of(s).len() <= usize::MAX,
        after_next(s).1 == Effect::Play(o),
    ensures
        after_prev(after_play_started(after_next(s).0, o)).1 == Effect::Play(s.current_track->0),
{
    let n = s.display.len() as int;
    let ct = s.current_track->0;
    lemma_first_index_where_range(s.display, equals(ct));
    let c = current_view_of(s)->0;
    let w = (c + 1) % n;
    vstd::arithmetic::div_mod::lemma_mod_bound(c + 1, n);
    if c + 1 < n {
        vstd::arithmetic::div_mod::lemma_small_mod((c + 1) as nat, n as nat);
    } else {
        vstd::arithmetic::div_mod::lemma_mod_self_0(n);
    }
    law_display_increasing(tracks_of(s), s.search);
    lemma_visible_in_range(tracks_of(s), s.search);
    assert(o == s.display[w]);
    let u = after_play_started(after_next(s).0, o);
    assert forall|k: int| 0 <= k < w implies !(#[trigger] equals(o)(s.display[k])) by {
        assert(s.display[k] < s.display[w]);
    }
    lemma_first_index_where_at(s.display, equals(o), w);
    assert(current_view_of(u) == Some(w));
}

/// When a track ends while playing: with repeat one it starts again; with
/// repeat over the list the next track starts as if `n` were pressed; with
/// repeat off, play stops after the last track shown.
pub proof fn law_track_end(s: AppView)
    requires
        app_wf(s),
        s.playing,
        s.current_track is Some,
    ensures
        s.repeat == RepeatMode::One ==> after_tick(s, true).1 == Effect::Play(s.current_track->0),
        s.repeat == RepeatMode::All ==> after_tick(s, true) == after_next(
            AppView { playing: false, ..s },
        ),
        (s.repeat == RepeatMode::Off && current_view_of(s) == Some(s.display.len() - 1))
            ==> after_tick(s, true) == (AppView { playing: false, ..s }, Effect::Nothing),
        !after_tick(s, false).0.playing || after_tick(s, false).0 == s,
{
}


/// The search is case-insensitive on titles: a track with a title is shown
/// whenever its title, lower-cased, contains the lower-cased search text
/// (here at position `at`).
pub proof fn law_search_finds_title(s: AppView, i: usize, at: int)
    requires
        app_wf(s),
        i < tracks_of(s).len(),
        tracks_of(s)[i as int].title.len() > 0,
        0 <= at,
        at + lowercase(s.search).len() <= lowercase(tracks_of(s)[i as int].title).len(),
        lowercase(tracks_of(s)[i as int].title).subrange(at, at + lowercase(s.search).len())
            == lowercase(s.search),
    ensures
        s.display.contains(i),
{
    law_display_is_search_result(s, i);
    assert(occurs_at(
        lowercase(tracks_of(s)[i as int].title),
        lowercase(s.search),
        at,
    ));
}

/// The search is case-insensitive on artists too: a track with an artist is
/// shown whenever its artist, lower-cased, contains the lower-cased search
/// text (here at position `at`).
pub proof fn law_search_finds_artist(s: AppView, i: usize, at: int)
    requires
        app_wf(s),
        i < tracks_of(s).len(),
        tracks_of(s)[i as int].artist.len() > 0,
        0 <= at,
        at + lowercase(s.search).len() <= lowercase(tracks_of(s)[i as int].artist).len(),
        lowercase(tracks_of(s)[i as int].artist).subrange(at, at + lowercase(s.search).len())
            == lowercase(s.search),
    ensures
        s.display.contains(i),
{
    law_display_is_search_result(s, i);
    assert(occurs_at(
        lowercase(tracks_of(s)[i as int].artist),
        lowercase(s.search),
        at,
    ));
}

/// A track without a title is found by its file name: it is shown whenever
/// the stem of its file name, lower-cased, contains the lower-cased search.
pub proof fn law_search_finds_file_stem(s: AppView, i: usize, stem: Seq<char>, at: int)
    requires
        app_wf(s),
        i < tracks_of(s).len(),
        tracks_of(s)[i as int].title.len() == 0,
        file_stem_of(tracks_of(s)[i as int].path) == Some(stem),
        0 <= at,
        at + lowercase(s.search).len() <= lowercase(stem).len(),
        lowercase(stem).subrange(at, at + lowercase(s.search).len()) == lowercase(s.search),
    ensures
        s.display.contains(i),
{
    law_display_is_search_result(s, i);
    assert(occurs_at(lowercase(stem), lowercase(s.search), at));
}

/// A track without an artist is found by its folder: it is shown whenever
/// the name of the folder holding it, lower-cased, contains the lower-cased
/// search.
pub proof fn law_search_finds_folder(
    s: AppView,
    i: usize,
    dir: Seq<char>,
    name: Seq<char>,
    at: int,
)
    requires
        app_wf(s),
        i < tracks_of(s).len(),
        tracks_of(s)[i as int].artist.len() == 0,
        parent_of(tracks_of(s)[i as int].path) == Some(dir),
        file_name_of(dir) == Some(name),
        0 <= at,
        at + lowercase(s.search).len() <= lowercase(name).len(),
        lowercase(name).subrange(at, at + lowercase(s.search).len()) == lowercase(s.search),
    ensures
        s.display.contains(i),
{
    law_display_is_search_result(s, i);
    assert(occurs_at(lowercase(name), lowercase(s.search), at));
}

/// A search shows nothing it does not match: each track shown under a
/// search has the lower-cased search somewhere in its lower-cased display
/// name or in its lower-cased subtitle.
pub proof fn law_search_shows_only_matches(s: AppView, i: usize)
    requires
        app_wf(s),
        i < tracks_of(s).len(),
        s.search.len() > 0,
        s.display.contains(i),
    ensures
        exists|at: int|
            occurs_at(lowercase(display_name_of(tracks_of(s)[i as int])), lowercase(s.search), at)
                || occurs_at(lowercase(subtitle_of(tracks_of(s)[i as int])), lowercase(s.search), at),
{
    law_display_is_search_result(s, i);
    let t = tracks_of(s)[i as int];
    let q = lowercase(s.search);
    if has_substring(lowercase(display_name_of(t)), q) {
        let at = choose|at: int| occurs_at(lowercase(display_name_of(t)), q, at);
        assert(occurs_at(lowercase(display_name_of(t)), q, at));
    } else {
        let at = choose|at: int| occurs_at(lowercase(subtitle_of(t)), q, at);
        assert(occurs_at(lowercase(subtitle_of(t)), q, at));
    }
}

/// With shuffle on and a shuffle order drawn for the current display list,
/// going to the next track plays the display position at the head of the
/// order and takes it off: the order loses exactly its first entry.
pub proof fn law_shuffle_next_consumes(s: AppView)
    requires
        app_wf(s),
        s.shuffle,
        s.display.len() > 0,
        s.shuffle_queue.len() == s.display.len(),
    ensures
        after_next(s).0.shuffle_queue == s.shuffle_queue.drop_first(),
        after_next(s).0.shuffle_queue.len() == s.shuffle_queue.len() - 1,
        s.shuffle_queue[0] < s.display.len() ==> after_next(s).1 == Effect::Play(
            s.display[s.shuffle_queue[0] as int],
        ),
{
    lemma_visible_in_range(tracks_of(s), s.search);
}

/// With shuffle on, going to the next track always leaves one entry fewer
/// than there are tracks shown in the shuffle order.
pub proof fn law_shuffle_next_shortens(s: AppView)
    requires
        app_wf(s),
        sizes_fit(s),
        s.shuffle,
        s.display.len() > 0,
    ensures
        after_next(s).0.shuffle_queue.len() == s.display.len() - 1,
{
    if s.shuffle_queue.len() != s.display.len() {
        law_shuffle_order(s);
    }
}

/// With shuffle on and more than one track shown, two presses of "next"
/// in a row (the first track having started) never play the same track twice.
pub proof fn law_shuffle_next_twice_differs(s: AppView, o: usize)
    requires
        app_wf(s),
        sizes_fit(s),
        s.shuffle,
        s.display.len() > 1,
        after_next(s).1 == Effect::Play(o),
    ensures
        after_next(after_play_started(after_next(s).0, o)).1 != Effect::Play(o),
{
    let n = s.display.len();
    let t = after_next(s).0;
    law_shuffle_next_shortens(s);
    lemma_visible_in_range(tracks_of(s), s.search);
    lemma_tracks_fit(s);
    law_display_increasing(tracks_of(s), s.search);
    let u = after_play_started(t, o);
    assert(t.display == s.display);
    assert(s.display.contains(o)) by {
        let t0 = if s.shuffle_queue.len() != n { after_reset_shuffle(s) } else { s };
        assert(o == s.display[t0.shuffle_queue[0] as int]);
    }
    assert(app_wf(u));
    assert(u.shuffle_queue.len() != n);
    lemma_first_index_where_range(u.display, equals(o));
    let w = choose|w: int| 0 <= w < s.display.len() && s.display[w] == o;
    assert forall|k: int| 0 <= k < w implies !(#[trigger] equals(o)(s.display[k])) by {
        assert(s.display[k] < s.display[w]);
    }
    lemma_first_index_where_at(s.display, equals(o), w);
    assert(current_view_of(u) == Some(w));
    law_shuffle_order(u);
    let r = after_reset_shuffle(u);
    assert(is_permutation(r.shuffle_queue, n));
    let v = r.shuffle_queue[0] as int;
    assert(0 <= v < n);
    assert(v != w);
    if v < w {
        assert(s.display[v] < s.display[w]);
    } else {
        assert(s.display[w] < s.display[v]);
    }
}

/// Outside search mode and without Control, Enter does what `l` does: it
/// asks to play the selected track and changes nothing else; with a
/// selection, the track asked for is the one shown at the selected position.
pub proof fn law_enter_plays_selected(s: AppView)
    requires
        app_wf(s),
        !s.search_active,
    ensures
        after_key(s, KeyPress { code: Key::Enter, ctrl: false }) == after_key(
            s,
            KeyPress { code: Key::Char('l'), ctrl: false },
        ),
        after_key(s, KeyPress { code: Key::Enter, ctrl: false }) == (s, play_selected_effect(s)),
        s.selected matches Some(v) ==> after_key(s, KeyPress { code: Key::Enter, ctrl: false })
            == (s, Effect::Play(s.display[v as int])),
{
    lemma_visible_in_range(tracks_of(s), s.search);
}

} // verus!
