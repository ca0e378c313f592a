//! The player's state machine: which playlist is shown, what the search
//! filter lets through, what is selected and playing, and what the player
//! is asked to do next. Audio output stays outside: each operation returns
//! an [`Effect`] for the audio side to carry out, and the outcome of a
//! request to play comes back through [`App::play_started`] or
//! [`App::play_failed`].
use vstd::prelude::*;

use crate::library::{display_name_of, subtitle_of, Playlist, PlaylistView, Track, TrackView};
use crate::order::views;
use crate::player::RepeatMode;
use crate::text::{chars_of, contains_chars, has_substring, lowercase, string_pop, string_push, to_lowercase};

verus! {

/// What the audio side is asked to do after an operation.
#[derive(Clone, Copy, Debug, PartialEq, Eq, Structural)]
pub enum Effect {
    /// Nothing.
    Nothing,
    /// Start playing track `i` of the active playlist, then report back with
    /// `play_started(i)` or `play_failed(..)`.
    Play(usize),
    /// Stop playback.
    Stop,
    /// Pause playback.
    Pause,
    /// Resume playback.
    Resume,
    /// Set the output volume, in percent.
    SetVolume(u32),
}

/// A key as the player understands it.
#[derive(Clone, Copy, Debug, PartialEq, Eq, Structural)]
pub enum Key {
    Char(char),
    Esc,
    Enter,
    Backspace,
    Up,
    Down,
    Tab,
    BackTab,
    Other,
}

/// A key press: the key and whether Control was held.
#[derive(Clone, Copy, Debug, PartialEq, Eq, Structural)]
pub struct KeyPress {
    pub code: Key,
    pub ctrl: bool,
}

/// The player's state.
pub struct App {
    pub playlists: Vec<Playlist>,
    pub active_playlist: usize,
    /// Indices into the active playlist's tracks that the search lets through, in order.
    pub display: Vec<usize>,
    /// Selected position in `display`.
    pub selected: Option<usize>,
    /// The track being played: an index into the active playlist's tracks
    /// (it survives changes of the search filter).
    pub current_track: Option<usize>,
    pub repeat: RepeatMode,
    pub shuffle: bool,
    /// Output volume in percent, `0..=100`.
    pub volume: u32,
    /// Whether audio is playing (not paused or stopped).
    pub playing: bool,
    pub should_quit: bool,
    pub search: String,
    pub search_active: bool,
    /// Last non-fatal error, shown in the footer.
    pub error: Option<String>,
    /// State of the shuffle's random generator.
    pub rng_state: u64,
    /// Display positions still to be played in shuffle mode, in order.
    pub shuffle_queue: Vec<usize>,
}

/// The mathematical value of an [`App`].
#[verifier::ext_equal]
pub struct AppView {
    pub playlists: Seq<PlaylistView>,
    pub active_playlist: usize,
    pub display: Seq<usize>,
    pub selected: Option<usize>,
    pub current_track: Option<usize>,
    pub repeat: RepeatMode,
    pub shuffle: bool,
    pub volume: u32,
    pub playing: bool,
    pub should_quit: bool,
    pub search: Seq<char>,
    pub search_active: bool,
    pub error: Option<Seq<char>>,
    pub rng_state: u64,
    pub shuffle_queue: Seq<usize>,
}

/// The view of an optional string.
pub open spec fn opt_view(o: Option<String>) -> Option<Seq<char>> {
    match o {
        Some(s) => Some(s@),
        None => None,
    }
}

impl View for App {
    type V = AppView;

    open spec fn view(&self) -> AppView {
        AppView {
            playlists: views(self.playlists@),
            active_playlist: self.active_playlist,
            display: self.display@,
            selected: self.selected,
            current_track: self.current_track,
            repeat: self.repeat,
            shuffle: self.shuffle,
            volume: self.volume,
            playing: self.playing,
            should_quit: self.should_quit,
            search: self.search@,
            search_active: self.search_active,
            error: opt_view(self.error),
            rng_state: self.rng_state,
            shuffle_queue: self.shuffle_queue@,
        }
    }
}

// ---------------------------------------------------------------------------
// the model
// ---------------------------------------------------------------------------

/// The tracks of the active playlist (none when there is no playlist).
pub open spec fn tracks_of(s: AppView) -> Seq<TrackView> {
    if s.active_playlist < s.playlists.len() {
        s.playlists[s.active_playlist as int].tracks
    } else {
        Seq::empty()
    }
}

/// `0, 1, .., n - 1`.
pub open spec fn all_indices(n: nat) -> Seq<usize> {
    Seq::new(n, |i: int| i as usize)
}

/// A track matches a lower-cased query when its lower-cased display name
/// or subtitle contains it.
pub open spec fn matches_query(t: TrackView, q: Seq<char>) -> bool {
    has_substring(lowercase(display_name_of(t)), q) || has_substring(lowercase(subtitle_of(t)), q)
}

/// The indices of the tracks a search lets through, in order: all of them
/// for an empty search, else those matching the lower-cased search.
pub open spec fn visible(tracks: Seq<TrackView>, search: Seq<char>) -> Seq<usize> {
    if search.len() == 0 {
        all_indices(tracks.len())
    } else {
        all_indices(tracks.len()).filter(
            |i: usize| matches_query(tracks[i as int], lowercase(search)),
        )
    }
}

/// The selection after the list changed to `n` entries: kept when still in
/// range, else the first entry, and nothing in an empty list.
pub open spec fn reselect(sel: Option<usize>, n: nat) -> Option<usize> {
    if n == 0 {
        None
    } else {
        match sel {
            Some(v) => if v < n {
                Some(v)
            } else {
                Some(0)
            },
            None => Some(0),
        }
    }
}

/// The state with its display list recomputed from the search.
pub open spec fn rebuilt(s: AppView) -> AppView {
    let d = visible(tracks_of(s), s.search);
    AppView { display: d, selected: reselect(s.selected, d.len()), ..s }
}

/// The invariant every reachable state keeps.
pub open spec fn app_wf(s: AppView) -> bool {
    &&& s.display == visible(tracks_of(s), s.search)
    &&& (s.selected matches Some(v) ==> v < s.display.len())
    &&& (s.display.len() == 0 ==> s.selected is None)
    &&& (s.current_track matches Some(c) ==> c < tracks_of(s).len())
    &&& (s.playlists.len() == 0 ==> s.active_playlist == 0)
    &&& (s.playlists.len() > 0 ==> s.active_playlist < s.playlists.len())
    &&& s.volume <= 100
}

/// The first position in `s` whose element satisfies `p`.
pub open spec fn first_index_where<A>(s: Seq<A>, p: spec_fn(A) -> bool) -> Option<int>
    decreases s.len(),
{
    if s.len() == 0 {
        None
    } else if p(s[0]) {
        Some(0)
    } else {
        match first_index_where(s.drop_first(), p) {
            Some(i) => Some(i + 1),
            None => None,
        }
    }
}

/// The predicate "equals `c`".
pub open spec fn equals(c: usize) -> spec_fn(usize) -> bool {
    |v: usize| v == c
}

/// Where the current track stands in the display list, if it is shown.
pub open spec fn current_view_of(s: AppView) -> Option<int> {
    match s.current_track {
        Some(c) => first_index_where(s.display, equals(c)),
        None => None,
    }
}

/// The playlist shown at start: the first one with tracks, else the first.
pub open spec fn first_filled(pls: Seq<PlaylistView>) -> int {
    match first_index_where(pls, |p: PlaylistView| p.tracks.len() > 0) {
        Some(i) => i,
        None => 0,
    }
}

/// The state right after start.
pub open spec fn initial(pls: Seq<PlaylistView>, rng_seed: u64) -> AppView {
    let s = AppView {
        playlists: pls,
        active_playlist: first_filled(pls) as usize,
        display: Seq::empty(),
        selected: None,
        current_track: None,
        repeat: RepeatMode::All,
        shuffle: false,
        volume: 60,
        playing: false,
        should_quit: false,
        search: Seq::empty(),
        search_active: false,
        error: None,
        rng_state: rng_seed,
        shuffle_queue: Seq::empty(),
    };
    AppView { display: all_indices(tracks_of(s).len()), ..s }
}

/// Switching playlists by `delta` (wrapping around): playback stops and the
/// search, the shuffle order and the error are cleared.
pub open spec fn after_switch_playlist(s: AppView, delta: i32) -> (AppView, Effect) {
    let n = s.playlists.len();
    if n <= 1 {
        (s, Effect::Nothing)
    } else {
        let next = ((s.active_playlist + delta) % (n as int)) as usize;
        (
            rebuilt(
                AppView {
                    active_playlist: next,
                    playing: false,
                    current_track: None,
                    shuffle_queue: Seq::empty(),
                    search: Seq::empty(),
                    error: None,
                    ..s
                },
            ),
            Effect::Stop,
        )
    }
}

/// Entering search mode.
pub open spec fn after_enter_search(s: AppView) -> AppView {
    AppView { search_active: true, ..s }
}

/// Leaving search mode, keeping the filter or clearing it.
pub open spec fn after_exit_search(s: AppView, keep: bool) -> AppView {
    let t = AppView { search_active: false, ..s };
    if keep {
        t
    } else {
        rebuilt(AppView { search: Seq::empty(), ..t })
    }
}

/// Typing `c` into the search.
pub open spec fn after_search_push(s: AppView, c: char) -> AppView {
    rebuilt(AppView { search: s.search.push(c), ..s })
}

/// Deleting the last character of the search.
pub open spec fn after_search_pop(s: AppView) -> AppView {
    rebuilt(
        AppView {
            search: if s.search.len() > 0 {
                s.search.drop_last()
            } else {
                s.search
            },
            ..s
        },
    )
}

/// Where moving the selection by `delta` starts from: the selection, or
/// the first entry moving down and the last moving up when nothing is selected.
pub open spec fn selection_start(s: AppView, delta: i32) -> int {
    match s.selected {
        Some(v) => v as int,
        None => if delta > 0 {
            0
        } else {
            s.display.len() - 1
        },
    }
}

/// Moving the selection by `delta`, wrapping around the display list.
pub open spec fn after_selected_mut(s: AppView, delta: i32) -> AppView {
    let n = s.display.len();
    if n == 0 {
        s
    } else {
        AppView {
            selected: Some(((selection_start(s, delta) + delta) % (n as int)) as usize),
            ..s
        }
    }
}

/// Asking to play track `i` of the active playlist (ignored when out of range).
pub open spec fn play_request(s: AppView, i: int) -> Effect {
    if 0 <= i < tracks_of(s).len() {
        Effect::Play(i as usize)
    } else {
        Effect::Nothing
    }
}

/// Asking to play the track at display position `v` (ignored when out of range).
pub open spec fn play_view(s: AppView, v: int) -> Effect {
    if 0 <= v < s.display.len() {
        play_request(s, s.display[v] as int)
    } else {
        Effect::Nothing
    }
}

/// Asking to play the selected track.
pub open spec fn play_selected_effect(s: AppView) -> Effect {
    match s.selected {
        Some(v) => play_view(s, v as int),
        None => Effect::Nothing,
    }
}

/// The player reports that track `i` started.
pub open spec fn after_play_started(s: AppView, i: usize) -> AppView {
    AppView { current_track: Some(i), error: None, playing: true, ..s }
}

/// The player reports that a track could not be played, for `reason`.
pub open spec fn after_play_failed(s: AppView, reason: Seq<char>) -> AppView {
    AppView { error: Some("cannot play: "@ + reason), ..s }
}

/// Pausing when playing, resuming when a track is loaded, else nothing.
pub open spec fn after_toggle_pause(s: AppView) -> (AppView, Effect) {
    if s.playing {
        (AppView { playing: false, ..s }, Effect::Pause)
    } else if s.current_track is Some {
        (AppView { playing: true, ..s }, Effect::Resume)
    } else {
        (s, Effect::Nothing)
    }
}

/// The repeat mode after `m`: off, then the whole list, then one track.
pub open spec fn next_repeat(m: RepeatMode) -> RepeatMode {
    match m {
        RepeatMode::Off => RepeatMode::All,
        RepeatMode::All => RepeatMode::One,
        RepeatMode::One => RepeatMode::Off,
    }
}

/// Cycling the repeat mode.
pub open spec fn after_cycle_repeat(s: AppView) -> AppView {
    AppView { repeat: next_repeat(s.repeat), ..s }
}

/// Toggling shuffle; the shuffle order is dropped.
pub open spec fn after_toggle_shuffle(s: AppView) -> AppView {
    AppView { shuffle: !s.shuffle, shuffle_queue: Seq::empty(), ..s }
}

/// `v` clamped to `0..=100`.
pub open spec fn clamp_volume(v: int) -> u32 {
    if v < 0 {
        0
    } else if v > 100 {
        100
    } else {
        v as u32
    }
}

/// Changing the volume by `delta` percent, clamped to `0..=100`.
pub open spec fn after_change_volume(s: AppView, delta: i32) -> (AppView, Effect) {
    let v = clamp_volume(s.volume + delta);
    (AppView { volume: v, ..s }, Effect::SetVolume(v))
}


// ---------------------------------------------------------------------------
// shuffle
// ---------------------------------------------------------------------------

/// One step of the xorshift64 generator.
pub open spec fn xorshift(x: u64) -> u64 {
    let a = x ^ (x << 13u64);
    let b = a ^ (a >> 7u64);
    b ^ (b << 17u64)
}

/// The output scrambling of xorshift64*: multiplication by its constant, modulo 2^64.
pub open spec fn scramble(x: u64) -> u64 {
    vstd::wrapping::u64_specs::wrapping_mul(x, 0x2545_F491_4F6C_DD1Du64)
}

/// The swap partner chosen for position `i` from the random value `r`: the
/// high half of `r` times `i + 1` (modulo 2^64), shifted down by 32 bits.
pub open spec fn pick(r: u64, i: int) -> int {
    (vstd::wrapping::u64_specs::wrapping_mul(r >> 32u64, (i + 1) as u64) >> 32u64) as int
}

/// `s` with the elements at `i` and `j` exchanged.
pub open spec fn swapped(s: Seq<usize>, i: int, j: int) -> Seq<usize> {
    s.update(i, s[j]).update(j, s[i])
}

/// The Fisher-Yates passes for positions `i - 1` down to `1`, from generator
/// state `rng`: the resulting order and generator state.
pub open spec fn shuffle_steps(order: Seq<usize>, i: int, rng: u64) -> (Seq<usize>, u64)
    decreases i,
{
    if i <= 1 {
        (order, rng)
    } else {
        let k = i - 1;
        let next = xorshift(rng);
        shuffle_steps(swapped(order, k, pick(scramble(next), k)), k, next)
    }
}

/// `order`, rotated by one when it would start with the current display position.
pub open spec fn avoid_first(order: Seq<usize>, cv: Option<int>) -> Seq<usize> {
    match cv {
        Some(c) => if order.len() > 1 && order[0] == c {
            order.drop_first().push(order[0])
        } else {
            order
        },
        None => order,
    }
}

/// A new shuffle order over the display positions.
pub open spec fn after_reset_shuffle(s: AppView) -> AppView {
    let n = s.display.len();
    let steps = shuffle_steps(all_indices(n), n as int, s.rng_state);
    AppView { shuffle_queue: avoid_first(steps.0, current_view_of(s)), rng_state: steps.1, ..s }
}

/// `s` holds each of `0..n` exactly once.
pub open spec fn is_permutation(s: Seq<usize>, n: nat) -> bool {
    &&& s.len() == n
    &&& forall|i: int| 0 <= i < s.len() ==> #[trigger] s[i] < n
    &&& forall|i: int, j: int| 0 <= i < j < s.len() ==> s[i] != s[j]
    &&& forall|x: usize| x < n ==> #[trigger] s.contains(x)
}

proof fn lemma_pick_bound(r: u64, i: int)
    requires
        0 <= i,
        i + 1 <= u64::MAX,
    ensures
        0 <= pick(r, i) <= i,
{
    let a = r >> 32u64;
    assert((r >> 32u64) <= 0xFFFF_FFFFu64) by (bit_vector);
    let b = (i + 1) as u64;
    let m = vstd::wrapping::u64_specs::wrapping_mul(a, b);
    assert(m >> 32u64 == m / 0x1_0000_0000u64) by (bit_vector);
    let prod: int = a as int * b as int;
    assert(m as int == prod % 0x1_0000_0000_0000_0000int);
    if prod < 0x1_0000_0000_0000_0000int {
        assert(prod <= 0xFFFF_FFFFint * b as int) by (nonlinear_arith)
            requires
                a <= 0xFFFF_FFFFu64,
                prod == a as int * b as int,
        ;
        vstd::arithmetic::div_mod::lemma_small_mod(prod as nat, 0x1_0000_0000_0000_0000nat);
        assert(m as int / 0x1_0000_0000int <= i) by (nonlinear_arith)
            requires
                m as int <= 0xFFFF_FFFFint * (i + 1),
                0 <= m,
                0 <= i,
        ;
    } else {
        assert(b as int > 0x1_0000_0000int) by (nonlinear_arith)
            requires
                a <= 0xFFFF_FFFFu64,
                prod == a as int * b as int,
                prod >= 0x1_0000_0000_0000_0000int,
        ;
        assert(m as int / 0x1_0000_0000int < 0x1_0000_0000int) by (nonlinear_arith)
            requires
                0 <= m,
                m as int <= 0xFFFF_FFFF_FFFF_FFFFint,
        ;
    }
}

proof fn lemma_all_indices_permutation(n: nat)
    requires
        n <= usize::MAX + 1,
    ensures
        is_permutation(all_indices(n), n),
{
    let s = all_indices(n);
    assert forall|x: usize| x < n implies #[trigger] s.contains(x) by {
        assert(s[x as int] == x);
    }
}

proof fn lemma_swapped_permutation(s: Seq<usize>, n: nat, i: int, j: int)
    requires
        is_permutation(s, n),
        0 <= i < n,
        0 <= j < n,
    ensures
        is_permutation(swapped(s, i, j), n),
{
    let t = swapped(s, i, j);
    assert forall|a: int, b: int| 0 <= a < b < t.len() implies t[a] != t[b] by {
        let pa = if a == j {
            i
        } else if a == i {
            j
        } else {
            a
        };
        let pb = if b == j {
            i
        } else if b == i {
            j
        } else {
            b
        };
        assert(t[a] == s[pa]);
        assert(t[b] == s[pb]);
        if pa < pb {
            assert(s[pa] != s[pb]);
        } else {
            assert(s[pb] != s[pa]);
        }
    }
    assert forall|x: usize| x < n implies #[trigger] t.contains(x) by {
        assert(s.contains(x));
        let p = choose|p: int| 0 <= p < s.len() && s[p] == x;
        let q = if p == i {
            j
        } else if p == j {
            i
        } else {
            p
        };
        assert(t[q] == x);
    }
}

proof fn lemma_steps_permutation(order: Seq<usize>, n: nat, i: int, rng: u64)
    requires
        is_permutation(order, n),
        i <= n,
        n <= usize::MAX,
    ensures
        is_permutation(shuffle_steps(order, i, rng).0, n),
    decreases i,
{
    if i > 1 {
        let k = i - 1;
        let next = xorshift(rng);
        let j = pick(scramble(next), k);
        lemma_pick_bound(scramble(next), k);
        lemma_swapped_permutation(order, n, k, j);
        lemma_steps_permutation(swapped(order, k, j), n, k, next);
    }
}

proof fn lemma_avoid_first(order: Seq<usize>, n: nat, cv: Option<int>)
    requires
        is_permutation(order, n),
    ensures
        is_permutation(avoid_first(order, cv), n),
        cv matches Some(c) ==> (n > 1 ==> avoid_first(order, cv)[0] != c),
{
    if let Some(c) = cv {
        if order.len() > 1 && order[0] == c {
            let t = order.drop_first().push(order[0]);
            assert(t == avoid_first(order, cv));
            assert forall|a: int, b: int| 0 <= a < b < t.len() implies t[a] != t[b] by {
                if b == t.len() - 1 {
                    assert(order[a + 1] != order[0]);
                } else {
                    assert(order[a + 1] != order[b + 1]);
                }
            }
            assert forall|x: usize| x < n implies #[trigger] t.contains(x) by {
                assert(order.contains(x));
                let p = choose|p: int| 0 <= p < order.len() && order[p] == x;
                if p == 0 {
                    assert(t[t.len() - 1] == x);
                } else {
                    assert(t[p - 1] == x);
                }
            }
            assert(order[1] != order[0]);
        }
    }
}

/// A new shuffle order holds every display position exactly once, and does
/// not start with the track being played when there is another to go to.
pub proof fn law_shuffle_order(s: AppView)
    requires
        app_wf(s),
        s.display.len() <= usize::MAX,
    ensures
        is_permutation(after_reset_shuffle(s).shuffle_queue, s.display.len()),
        current_view_of(s) matches Some(c) ==> (s.display.len() > 1
            ==> after_reset_shuffle(s).shuffle_queue[0] != c),
{
    let n = s.display.len();
    lemma_visible_in_range(tracks_of(s), s.search);
    lemma_all_indices_permutation(n);
    lemma_steps_permutation(all_indices(n), n, n as int, s.rng_state);
    let steps = shuffle_steps(all_indices(n), n as int, s.rng_state);
    lemma_avoid_first(steps.0, n, current_view_of(s));
}


/// Going to the next track. With shuffle on, the next display position
/// comes off the shuffle order, which is drawn anew whenever its length no
/// longer matches the display list; otherwise it is the position after the
/// current track's (or after the first, when the current track is not shown),
/// wrapping around.
pub open spec fn after_next(s: AppView) -> (AppView, Effect) {
    let n = s.display.len();
    if n == 0 {
        (s, Effect::Nothing)
    } else if s.shuffle {
        let t = if s.shuffle_queue.len() != n {
            after_reset_shuffle(s)
        } else {
            s
        };
        if t.shuffle_queue.len() > 0 {
            (
                AppView { shuffle_queue: t.shuffle_queue.drop_first(), ..t },
                play_view(t, t.shuffle_queue[0] as int),
            )
        } else {
            (
                t,
                play_view(
                    t,
                    match current_view_of(t) {
                        Some(v) => v,
                        None => 0,
                    },
                ),
            )
        }
    } else {
        let cur = match current_view_of(s) {
            Some(v) => v,
            None => 0,
        };
        (s, play_view(s, (cur + 1) % (n as int)))
    }
}

/// Going to the previous track: the display position before the current
/// track's (or the last one, from the first position or when the current
/// track is not shown).
pub open spec fn after_prev(s: AppView) -> (AppView, Effect) {
    let n = s.display.len();
    if n == 0 {
        (s, Effect::Nothing)
    } else {
        let cur = match current_view_of(s) {
            Some(v) => v,
            None => 0,
        };
        (
            s,
            play_view(
                s,
                if cur == 0 {
                    n - 1
                } else {
                    cur - 1
                },
            ),
        )
    }
}

/// A tick of the clock, given whether the player has run out of audio: when
/// the current track has finished while playing, play stops and then the
/// same track starts again (repeat one), or the next track starts, unless
/// repeat is off and the track was the last one shown.
pub open spec fn after_tick(s: AppView, finished: bool) -> (AppView, Effect) {
    match s.current_track {
        Some(o) => if finished && s.playing {
            let t = AppView { playing: false, ..s };
            if t.repeat == RepeatMode::One {
                (t, play_request(t, o as int))
            } else {
                let n = t.display.len();
                let v = current_view_of(t);
                if v is None || v.unwrap() + 1 < n || t.repeat == RepeatMode::All {
                    after_next(t)
                } else {
                    (t, Effect::Nothing)
                }
            }
        } else {
            (s, Effect::Nothing)
        },
        None => (s, Effect::Nothing),
    }
}

/// Handling a key press. In search mode, Esc leaves and clears the search,
/// Enter leaves and keeps it, Backspace deletes and characters are typed.
/// Otherwise, without Control: `q`/Esc quit, `/`/`f` search, `[`/`]` switch
/// playlist, Up/`k` and Down/`j` move the selection, Enter/`l` play it,
/// space pauses, `n`/Tab and `p`/BackTab go to the next and previous track,
/// `r` cycles repeat, `s` toggles shuffle, `=`/`+` and `-` change the volume
/// by 5%. Anything else does nothing.
pub open spec fn after_key(s: AppView, k: KeyPress) -> (AppView, Effect) {
    if s.search_active {
        match k.code {
            Key::Esc => (after_exit_search(s, false), Effect::Nothing),
            Key::Enter => (after_exit_search(s, true), Effect::Nothing),
            Key::Backspace => (after_search_pop(s), Effect::Nothing),
            Key::Char(c) => (after_search_push(s, c), Effect::Nothing),
            _ => (s, Effect::Nothing),
        }
    } else if k.ctrl {
        (s, Effect::Nothing)
    } else {
        match k.code {
            Key::Esc => (AppView { should_quit: true, ..s }, Effect::Nothing),
            Key::Up => (after_selected_mut(s, -1i32), Effect::Nothing),
            Key::Down => (after_selected_mut(s, 1), Effect::Nothing),
            Key::Enter => (s, play_selected_effect(s)),
            Key::Tab => after_next(s),
            Key::BackTab => after_prev(s),
            Key::Char(c) => if c == 'q' {
                (AppView { should_quit: true, ..s }, Effect::Nothing)
            } else if c == '/' || c == 'f' {
                (after_enter_search(s), Effect::Nothing)
            } else if c == '[' {
                after_switch_playlist(s, -1i32)
            } else if c == ']' {
                after_switch_playlist(s, 1)
            } else if c == 'k' {
                (after_selected_mut(s, -1i32), Effect::Nothing)
            } else if c == 'j' {
                (after_selected_mut(s, 1), Effect::Nothing)
            } else if c == 'l' {
                (s, play_selected_effect(s))
            } else if c == ' ' {
                after_toggle_pause(s)
            } else if c == 'n' {
                after_next(s)
            } else if c == 'p' {
                after_prev(s)
            } else if c == 'r' {
                (after_cycle_repeat(s), Effect::Nothing)
            } else if c == 's' {
                (after_toggle_shuffle(s), Effect::Nothing)
            } else if c == '=' || c == '+' {
                after_change_volume(s, 5)
            } else if c == '-' {
                after_change_volume(s, -5i32)
            } else {
                (s, Effect::Nothing)
            },
            _ => (s, Effect::Nothing),
        }
    }
}

/// Whether `k`, outside search mode, moves the selection (Up/`k`, Down/`j`).
pub open spec fn moves_selection(k: KeyPress) -> bool {
    !k.ctrl && match k.code {
        Key::Up | Key::Down => true,
        Key::Char(c) => c == 'k' || c == 'j',
        _ => false,
    }
}

/// Whether `k`, outside search mode, switches the playlist (`[` or `]`).
pub open spec fn switches_playlist(k: KeyPress) -> bool {
    !k.ctrl && match k.code {
        Key::Char(c) => c == '[' || c == ']',
        _ => false,
    }
}

// ---------------------------------------------------------------------------
// lemmas
// ---------------------------------------------------------------------------

pub(crate) proof fn lemma_first_index_where_at<A>(s: Seq<A>, p: spec_fn(A) -> bool, v: int)
    requires
        0 <= v < s.len(),
        p(s[v]),
        forall|w: int| 0 <= w < v ==> !p(#[trigger] s[w]),
    ensures
        first_index_where(s, p) == Some(v),
    decreases v,
{
    if v > 0 {
        assert(!p(s[0]));
        assert forall|w: int| 0 <= w < v - 1 implies !p(#[trigger] s.drop_first()[w]) by {
            assert(s.drop_first()[w] == s[w + 1]);
        }
        lemma_first_index_where_at(s.drop_first(), p, v - 1);
    }
}

pub(crate) proof fn lemma_first_index_where_range<A>(s: Seq<A>, p: spec_fn(A) -> bool)
    ensures
        first_index_where(s, p) matches Some(i) ==> 0 <= i < s.len() && p(s[i]),
    decreases s.len(),
{
    if s.len() > 0 && !p(s[0]) {
        lemma_first_index_where_range(s.drop_first(), p);
    }
}

pub(crate) proof fn lemma_first_index_where_none<A>(s: Seq<A>, p: spec_fn(A) -> bool)
    requires
        forall|w: int| 0 <= w < s.len() ==> !p(#[trigger] s[w]),
    ensures
        first_index_where(s, p) is None,
    decreases s.len(),
{
    if s.len() > 0 {
        assert(!p(s[0]));
        assert forall|w: int| 0 <= w < s.len() - 1 implies !p(#[trigger] s.drop_first()[w]) by {
            assert(s.drop_first()[w] == s[w + 1]);
        }
        lemma_first_index_where_none(s.drop_first(), p);
    }
}

/// Each element of a filtered sequence is an element of the sequence.
pub(crate) proof fn lemma_filter_from<A>(s: Seq<A>, p: spec_fn(A) -> bool)
    ensures
        forall|i: int|
            0 <= i < s.filter(p).len() ==> exists|k: int|
                0 <= k < s.len() && #[trigger] s.filter(p)[i] == s[k],
        s.filter(p).len() <= s.len(),
    decreases s.len(),
{
    reveal(Seq::filter);
    if s.len() > 0 {
        lemma_filter_from(s.drop_last(), p);
        let sub = s.drop_last().filter(p);
        assert forall|i: int| 0 <= i < s.filter(p).len() implies exists|k: int|
            0 <= k < s.len() && #[trigger] s.filter(p)[i] == s[k] by {
            if i < sub.len() {
                let k = choose|k: int| 0 <= k < s.drop_last().len() && sub[i] == s.drop_last()[k];
                assert(s.filter(p)[i] == s[k]);
            } else {
                assert(s.filter(p)[i] == s[s.len() - 1]);
            }
        }
    }
}

/// Every entry of the display list is a track index of the active playlist.
pub proof fn lemma_visible_in_range(tracks: Seq<TrackView>, search: Seq<char>)
    ensures
        forall|v: int|
            0 <= v < visible(tracks, search).len() ==> #[trigger] visible(tracks, search)[v]
                < tracks.len(),
        visible(tracks, search).len() <= tracks.len(),
{
    let all = all_indices(tracks.len());
    if search.len() > 0 {
        let p = |i: usize| matches_query(tracks[i as int], lowercase(search));
        lemma_filter_from(all, p);
        assert forall|v: int| 0 <= v < all.filter(p).len() implies #[trigger] all.filter(p)[v]
            < tracks.len() by {
            let k = choose|k: int| 0 <= k < all.len() && all.filter(p)[v] == all[k];
        }
    }
}

/// The display list after a rebuild satisfies the invariant.
pub(crate) proof fn lemma_rebuilt_wf(s: AppView)
    requires
        (s.current_track matches Some(c) ==> c < tracks_of(s).len()),
        (s.playlists.len() == 0 ==> s.active_playlist == 0),
        (s.playlists.len() > 0 ==> s.active_playlist < s.playlists.len()),
        s.volume <= 100,
    ensures
        app_wf(rebuilt(s)),
{
}

// ---------------------------------------------------------------------------
// operations
// ---------------------------------------------------------------------------

/// Whether track `t` matches the lower-cased query `q`.
fn track_matches(t: &Track, q: &[char]) -> (r: bool)
    ensures
        r == matches_query(t@, q@),
{
    let name = t.display_name();
    let lower_name = to_lowercase(name.as_str());
    let name_chars = chars_of(lower_name.as_str());
    if contains_chars(name_chars.as_slice(), q) {
        return true;
    }
    let sub = t.subtitle();
    let lower_sub = to_lowercase(sub.as_str());
    let sub_chars = chars_of(lower_sub.as_str());
    contains_chars(sub_chars.as_slice(), q)
}

/// `0, 1, .., n - 1`.
fn index_range(n: usize) -> (r: Vec<usize>)
    ensures
        r@ == all_indices(n as nat),
{
    let mut out: Vec<usize> = Vec::new();
    let mut i: usize = 0;
    while i < n
        invariant
            i <= n,
            out@ =~= all_indices(i as nat),
        decreases n - i,
    {
        out.push(i);
        i = i + 1;
    }
    out
}

/// `((x % n) + n) % n` for `x` in `i32` range: the Euclidean remainder, as a `usize`.
fn wrap_i32(x: i32, n: usize) -> (r: usize)
    requires
        0 < n <= i32::MAX,
    ensures
        r as int == (x as int) % (n as int),
        r < n,
{
    let mut next: i32 = x;
    while next < 0
        invariant
            0 < n <= i32::MAX,
            (next as int) % (n as int) == (x as int) % (n as int),
        decreases if next < 0 {
            0 - next
        } else {
            0
        },
    {
        proof {
            vstd::arithmetic::div_mod::lemma_mod_add_multiples_vanish(next as int, n as int);
        }
        next = next + n as i32;
    }
    (next as usize) % n
}

impl App {
    /// The state at start, over the scanned playlists: the first playlist
    /// with tracks is shown in full, nothing is selected or playing, repeat
    /// covers the list, volume is 60%, and `rng_seed` seeds the shuffle.
    pub fn new(playlists: Vec<Playlist>, rng_seed: u64) -> (r: App)
        ensures
            r@ == initial(views(playlists@), rng_seed),
            app_wf(r@),
    {
        let ghost pv = views(playlists@);
        let ghost p = |pl: PlaylistView| pl.tracks.len() > 0;
        let mut active: usize = 0;
        let mut found = false;
        let mut i: usize = 0;
        while i < playlists.len() && !found
            invariant
                i <= playlists@.len(),
                pv == views(playlists@),
                found ==> i > 0 && active == i - 1 && pv[active as int].tracks.len() > 0 && forall|
                    w: int,
                | 0 <= w < active ==> (#[trigger] pv[w]).tracks.len() == 0,
                !found ==> active == 0 && forall|w: int|
                    0 <= w < i ==> (#[trigger] pv[w]).tracks.len() == 0,
            decreases playlists@.len() - i + (if found { 0int } else { 1int }),
        {
            assert(pv[i as int].tracks.len() == playlists@[i as int].tracks@.len());
            if playlists[i].tracks.len() > 0 {
                active = i;
                found = true;
            }
            i = i + 1;
        }
        proof {
            if found {
                lemma_first_index_where_at(pv, p, active as int);
            } else {
                lemma_first_index_where_none(pv, p);
            }
        }
        let n: usize = if active < playlists.len() {
            playlists[active].tracks.len()
        } else {
            0
        };
        let app = App {
            playlists,
            active_playlist: active,
            display: index_range(n),
            selected: None,
            current_track: None,
            repeat: RepeatMode::All,
            shuffle: false,
            volume: 60,
            playing: false,
            should_quit: false,
            search: String::new(),
            search_active: false,
            error: None,
            rng_state: rng_seed,
            shuffle_queue: Vec::new(),
        };
        assert(app@ =~= initial(pv, rng_seed));
        app
    }

    /// The tracks of the active playlist.
    pub fn active_tracks(&self) -> (r: &[Track])
        ensures
            views(r@) == tracks_of(self@),
    {
        if self.active_playlist < self.playlists.len() {
            self.playlists[self.active_playlist].tracks.as_slice()
        } else {
            let r: &[Track] = &[];
            assert(views(r@) =~= Seq::<TrackView>::empty());
            r
        }
    }

    /// The display list for the current playlist and search.
    fn visible_indices(&self) -> (r: Vec<usize>)
        ensures
            r@ == visible(tracks_of(self@), self@.search),
    {
        let tracks = self.active_tracks();
        let n: usize = tracks.len();
        let ghost tv = tracks_of(self@);
        if self.search.as_str().is_empty() {
            return index_range(n);
        }
        let lower = to_lowercase(self.search.as_str());
        let q = chars_of(lower.as_str());
        let ghost p = |i: usize| matches_query(tv[i as int], lowercase(self@.search));
        let mut out: Vec<usize> = Vec::new();
        let mut i: usize = 0;
        proof {
            reveal(Seq::filter);
            assert(all_indices(0).filter(p) =~= Seq::<usize>::empty());
        }
        while i < n
            invariant
                i <= n,
                n == tv.len(),
                tv == views(tracks@),
                q@ == lowercase(self@.search),
                forall|j: usize| #[trigger] p(j) == matches_query(tv[j as int], q@),
                out@ == all_indices(i as nat).filter(p),
            decreases n - i,
        {
            proof {
                reveal(Seq::filter);
                assert(all_indices((i + 1) as nat).drop_last() =~= all_indices(i as nat));
                assert(all_indices((i + 1) as nat).last() == i);
            }
            let ghost before = out@;
            assert(tracks@[i as int]@ == tv[i as int]);
            if track_matches(&tracks[i], q.as_slice()) {
                out.push(i);
                assert(out@ == all_indices((i + 1) as nat).filter(p));
            } else {
                assert(before == all_indices((i + 1) as nat).filter(p));
            }
            i = i + 1;
        }
        out
    }

    /// Recomputes the display list from the search, keeping the selection
    /// when it is still in range.
    fn rebuild_display(&mut self)
        ensures
            final(self)@ == rebuilt(old(self)@),
    {
        let d = self.visible_indices();
        self.display = d;
        let n = self.display.len();
        if n == 0 {
            self.selected = None;
        } else {
            match self.selected {
                Some(v) => {
                    if v >= n {
                        self.selected = Some(0);
                    }
                },
                None => {
                    self.selected = Some(0);
                },
            }
        }
        assert(self@ =~= rebuilt(old(self)@));
    }

    /// Switches to the playlist `delta` places away, wrapping around; with a
    /// single playlist nothing happens.
    pub fn switch_playlist(&mut self, delta: i32) -> (e: Effect)
        requires
            app_wf(old(self)@),
            old(self)@.playlists.len() <= i32::MAX,
            old(self)@.playlists.len() > 1 ==> old(self)@.active_playlist + delta <= i32::MAX,
        ensures
            (final(self)@, e) == after_switch_playlist(old(self)@, delta),
            app_wf(final(self)@),
    {
        let n = self.playlists.len();
        if n <= 1 {
            return Effect::Nothing;
        }
        let next = wrap_i32(self.active_playlist as i32 + delta, n);
        self.active_playlist = next;
        self.playing = false;
        self.current_track = None;
        self.shuffle_queue = Vec::new();
        self.search = String::new();
        self.error = None;
        let ghost mid = self@;
        self.rebuild_display();
        proof {
            lemma_rebuilt_wf(mid);
        }
        assert(self@ =~= after_switch_playlist(old(self)@, delta).0);
        Effect::Stop
    }

    /// Enters search mode.
    pub fn enter_search(&mut self)
        requires
            app_wf(old(self)@),
        ensures
            final(self)@ == after_enter_search(old(self)@),
            app_wf(final(self)@),
    {
        self.search_active = true;
        assert(self@ =~= after_enter_search(old(self)@));
    }

    /// Leaves search mode; unless `keep`, the search is cleared and every
    /// track is shown again.
    pub fn exit_search(&mut self, keep: bool)
        requires
            app_wf(old(self)@),
        ensures
            final(self)@ == after_exit_search(old(self)@, keep),
            app_wf(final(self)@),
    {
        self.search_active = false;
        if !keep {
            self.search = String::new();
            let ghost mid = self@;
            self.rebuild_display();
            proof {
                lemma_rebuilt_wf(mid);
            }
        }
        assert(self@ =~= after_exit_search(old(self)@, keep));
    }

    /// Types `c` into the search and filters again.
    pub fn search_push(&mut self, c: char)
        requires
            app_wf(old(self)@),
        ensures
            final(self)@ == after_search_push(old(self)@, c),
            app_wf(final(self)@),
    {
        string_push(&mut self.search, c);
        let ghost mid = self@;
        self.rebuild_display();
        proof {
            lemma_rebuilt_wf(mid);
        }
        assert(self@ =~= after_search_push(old(self)@, c));
    }

    /// Deletes the last character of the search and filters again.
    pub fn search_pop(&mut self)
        requires
            app_wf(old(self)@),
        ensures
            final(self)@ == after_search_pop(old(self)@),
            app_wf(final(self)@),
    {
        let _ = string_pop(&mut self.search);
        let ghost mid = self@;
        self.rebuild_display();
        proof {
            lemma_rebuilt_wf(mid);
        }
        assert(self@ =~= after_search_pop(old(self)@));
    }

    /// The track index shown at display position `view_i`.
    pub fn orig_of(&self, view_i: usize) -> (r: Option<usize>)
        ensures
            r == (if view_i < self@.display.len() {
                Some(self@.display[view_i as int])
            } else {
                None
            }),
    {
        if view_i < self.display.len() {
            Some(self.display[view_i])
        } else {
            None
        }
    }

    /// Moves the selection by `delta`, wrapping around the display list.
    pub fn selected_mut(&mut self, delta: i32)
        requires
            app_wf(old(self)@),
            old(self)@.display.len() <= i32::MAX,
            old(self)@.display.len() > 0 ==> selection_start(old(self)@, delta) + delta
                <= i32::MAX,
        ensures
            final(self)@ == after_selected_mut(old(self)@, delta),
            app_wf(final(self)@),
    {
        let n = self.display.len();
        if n == 0 {
            return;
        }
        let cur: usize = match self.selected {
            Some(v) => v,
            None => if delta > 0 {
                0
            } else {
                n - 1
            },
        };
        let next = wrap_i32(cur as i32 + delta, n);
        self.selected = Some(next);
        assert(self@ =~= after_selected_mut(old(self)@, delta));
    }

    /// Asks to play track `i` of the active playlist; out of range, nothing happens.
    pub fn play_track(&self, i: usize) -> (e: Effect)
        ensures
            e == play_request(self@, i as int),
    {
        let n = self.active_tracks().len();
        if i >= n {
            Effect::Nothing
        } else {
            Effect::Play(i)
        }
    }

    /// Asks to play the selected track.
    pub fn play_selected(&self) -> (e: Effect)
        ensures
            e == play_selected_effect(self@),
    {
        match self.selected {
            Some(v) => match self.orig_of(v) {
                Some(o) => self.play_track(o),
                None => Effect::Nothing,
            },
            None => Effect::Nothing,
        }
    }

    /// Records that track `i` started playing; the player should then be
    /// set to the current volume.
    pub fn play_started(&mut self, i: usize) -> (e: Effect)
        requires
            app_wf(old(self)@),
            i < tracks_of(old(self)@).len(),
        ensures
            final(self)@ == after_play_started(old(self)@, i),
            e == Effect::SetVolume(old(self)@.volume),
            app_wf(final(self)@),
    {
        self.current_track = Some(i);
        self.error = None;
        self.playing = true;
        assert(self@ =~= after_play_started(old(self)@, i));
        Effect::SetVolume(self.volume)
    }

    /// Records that a track could not be played, for `reason`; the error is
    /// shown and nothing else changes.
    pub fn play_failed(&mut self, reason: String)
        requires
            app_wf(old(self)@),
        ensures
            final(self)@ == after_play_failed(old(self)@, reason@),
            app_wf(final(self)@),
    {
        let msg = String::from_str("cannot play: ").concat(reason.as_str());
        self.error = Some(msg);
        assert(self@ =~= after_play_failed(old(self)@, reason@));
    }

    /// Where the current track stands in the display list, if it is shown.
    pub fn current_view(&self) -> (r: Option<usize>)
        ensures
            (match r {
                Some(v) => current_view_of(self@) == Some(v as int),
                None => current_view_of(self@) is None,
            }),
    {
        match self.current_track {
            None => None,
            Some(ct) => {
                let mut i: usize = 0;
                while i < self.display.len()
                    invariant
                        self.current_track == Some(ct),
                        i <= self@.display.len(),
                        forall|w: int| 0 <= w < i ==> #[trigger] self@.display[w] != ct,
                    decreases self@.display.len() - i,
                {
                    if self.display[i] == ct {
                        proof {
                            lemma_first_index_where_at(self@.display, equals(ct), i as int);
                        }
                        return Some(i);
                    }
                    i = i + 1;
                }
                proof {
                    lemma_first_index_where_none(self@.display, equals(ct));
                }
                None
            },
        }
    }

    /// Pauses when playing, resumes when a track is loaded, else does nothing.
    pub fn toggle_pause(&mut self) -> (e: Effect)
        requires
            app_wf(old(self)@),
        ensures
            (final(self)@, e) == after_toggle_pause(old(self)@),
            app_wf(final(self)@),
    {
        if self.playing {
            self.playing = false;
            assert(self@ =~= after_toggle_pause(old(self)@).0);
            Effect::Pause
        } else if self.current_track.is_some() {
            self.playing = true;
            assert(self@ =~= after_toggle_pause(old(self)@).0);
            Effect::Resume
        } else {
            Effect::Nothing
        }
    }

    /// Cycles the repeat mode: off, whole list, one track.
    pub fn cycle_repeat(&mut self)
        requires
            app_wf(old(self)@),
        ensures
            final(self)@ == after_cycle_repeat(old(self)@),
            app_wf(final(self)@),
    {
        match self.repeat {
            RepeatMode::Off => self.repeat = RepeatMode::All,
            RepeatMode::All => self.repeat = RepeatMode::One,
            RepeatMode::One => self.repeat = RepeatMode::Off,
        }
        assert(self@ =~= after_cycle_repeat(old(self)@));
    }

    /// Turns shuffle on or off; the shuffle order starts afresh.
    pub fn toggle_shuffle(&mut self)
        requires
            app_wf(old(self)@),
        ensures
            final(self)@ == after_toggle_shuffle(old(self)@),
            app_wf(final(self)@),
    {
        self.shuffle = !self.shuffle;
        self.shuffle_queue = Vec::new();
        assert(self@ =~= after_toggle_shuffle(old(self)@));
    }

    /// Changes the volume by `delta` percent, within `0..=100`.
    pub fn change_volume(&mut self, delta: i32) -> (e: Effect)
        requires
            app_wf(old(self)@),
        ensures
            (final(self)@, e) == after_change_volume(old(self)@, delta),
            app_wf(final(self)@),
    {
        let v: i64 = self.volume as i64 + delta as i64;
        let c: u32 = if v < 0 {
            0
        } else if v > 100 {
            100
        } else {
            v as u32
        };
        self.volume = c;
        assert(self@ =~= after_change_volume(old(self)@, delta).0);
        Effect::SetVolume(c)
    }
    /// The current shuffle order: display positions still to be played.
    pub fn shuffle_queue(&self) -> (r: &[usize])
        ensures
            r@ == self@.shuffle_queue,
    {
        self.shuffle_queue.as_slice()
    }

    /// Advances the generator (xorshift64*) and returns its next value.
    pub fn next_rand(&mut self) -> (r: u64)
        ensures
            final(self)@ == (AppView { rng_state: xorshift(old(self)@.rng_state), ..old(self)@ }),
            r == scramble(final(self)@.rng_state),
    {
        let mut x = self.rng_state;
        x = x ^ (x << 13u64);
        x = x ^ (x >> 7u64);
        x = x ^ (x << 17u64);
        self.rng_state = x;
        assert(self@ =~= AppView { rng_state: xorshift(old(self)@.rng_state), ..old(self)@ });
        x.wrapping_mul(0x2545_F491_4F6C_DD1Du64)
    }

    /// Draws a new shuffle order over the display positions (Fisher-Yates),
    /// rotated by one when it would start with the current track.
    pub fn reset_shuffle(&mut self)
        requires
            app_wf(old(self)@),
        ensures
            final(self)@ == after_reset_shuffle(old(self)@),
            app_wf(final(self)@),
            is_permutation(final(self)@.shuffle_queue, old(self)@.display.len()),
            current_view_of(old(self)@) matches Some(c) ==> (old(self)@.display.len() > 1
                ==> final(self)@.shuffle_queue[0] != c),
    {
        let ghost s0 = self@;
        let n = self.display.len();
        let mut order = index_range(n);
        let mut i: usize = n;
        while i > 1
            invariant
                i <= n,
                n == s0.display.len(),
                order@.len() == n,
                self@ == (AppView { rng_state: self@.rng_state, ..s0 }),
                shuffle_steps(order@, i as int, self@.rng_state) == shuffle_steps(
                    all_indices(n as nat),
                    n as int,
                    s0.rng_state,
                ),
            decreases i,
        {
            let ghost before = order@;
            i = i - 1;
            let r = self.next_rand();
            let j = ((r >> 32u64).wrapping_mul((i + 1) as u64) >> 32u64) as usize;
            proof {
                lemma_pick_bound(r, i as int);
                assert(j as int == pick(r, i as int));
            }
            let a = order[i];
            let b = order[j];
            order.set(i, b);
            order.set(j, a);
            assert(order@ =~= swapped(before, i as int, j as int));
        }
        let ghost steps = shuffle_steps(all_indices(n as nat), n as int, s0.rng_state);
        assert(order@ == steps.0);
        match self.current_view() {
            Some(cur) => {
                if order.len() > 1 && order[0] == cur {
                    let first = order.remove(0);
                    order.push(first);
                }
            },
            None => {},
        }
        self.shuffle_queue = order;
        assert(self@ =~= after_reset_shuffle(s0));
        proof {
            law_shuffle_order(s0);
        }
    }

    /// Goes to the next track (shuffled or in order) and asks to play it.
    pub fn next(&mut self) -> (e: Effect)
        requires
            app_wf(old(self)@),
        ensures
            (final(self)@, e) == after_next(old(self)@),
            app_wf(final(self)@),
    {
        let n = self.display.len();
        if n == 0 {
            return Effect::Nothing;
        }
        let next_v: usize;
        if self.shuffle {
            if self.shuffle_queue.len() != n {
                self.reset_shuffle();
            }
            let ghost t = self@;
            if self.shuffle_queue.len() > 0 {
                let r = self.shuffle_queue[0];
                self.shuffle_queue.remove(0);
                assert(self@ =~= AppView { shuffle_queue: t.shuffle_queue.drop_first(), ..t });
                next_v = r;
            } else {
                next_v = match self.current_view() {
                    Some(v) => v,
                    None => 0,
                };
            }
        } else {
            let cur: usize = match self.current_view() {
                Some(v) => {
                    proof {
                        lemma_first_index_where_range(self@.display, equals(self@.current_track->0));
                    }
                    v
                },
                None => 0,
            };
            next_v = (cur + 1) % n;
        }
        match self.orig_of(next_v) {
            Some(o) => self.play_track(o),
            None => Effect::Nothing,
        }
    }

    /// Goes to the previous track and asks to play it.
    pub fn prev(&mut self) -> (e: Effect)
        requires
            app_wf(old(self)@),
        ensures
            (final(self)@, e) == after_prev(old(self)@),
            app_wf(final(self)@),
    {
        let n = self.display.len();
        if n == 0 {
            return Effect::Nothing;
        }
        let cur: usize = match self.current_view() {
            Some(v) => v,
            None => 0,
        };
        let prev_v: usize = if cur == 0 {
            n - 1
        } else {
            cur - 1
        };
        match self.orig_of(prev_v) {
            Some(o) => self.play_track(o),
            None => Effect::Nothing,
        }
    }

    /// A tick of the clock; `finished` tells whether the player has run out
    /// of audio. Starts the following track when the current one ended.
    pub fn update(&mut self, finished: bool) -> (e: Effect)
        requires
            app_wf(old(self)@),
        ensures
            (final(self)@, e) == after_tick(old(self)@, finished),
            app_wf(final(self)@),
    {
        match self.current_track {
            Some(o) => {
                if finished && self.playing {
                    self.playing = false;
                    match self.repeat {
                        RepeatMode::One => self.play_track(o),
                        _ => {
                            let n = self.display.len();
                            let v = self.current_view();
                            let go = match v {
                                None => true,
                                Some(x) => {
                                    proof {
                                        lemma_first_index_where_range(self@.display, equals(o));
                                    }
                                    x + 1 < n
                                },
                            } || self.repeat == RepeatMode::All;
                            if go {
                                self.next()
                            } else {
                                Effect::Nothing
                            }
                        },
                    }
                } else {
                    Effect::Nothing
                }
            },
            None => Effect::Nothing,
        }
    }

    /// Handles a key press (see [`after_key`]).
    pub fn handle_key(&mut self, key: KeyPress) -> (e: Effect)
        requires
            app_wf(old(self)@),
            !old(self)@.search_active && moves_selection(key) ==> old(self)@.display.len()
                <= i32::MAX,
            !old(self)@.search_active && switches_playlist(key) ==> old(self)@.playlists.len()
                <= i32::MAX,
        ensures
            (final(self)@, e) == after_key(old(self)@, key),
            app_wf(final(self)@),
    {
        if self.search_active {
            match key.code {
                Key::Esc => self.exit_search(false),
                Key::Enter => self.exit_search(true),
                Key::Backspace => self.search_pop(),
                Key::Char(c) => self.search_push(c),
                _ => {},
            }
            return Effect::Nothing;
        }
        if key.ctrl {
            return Effect::Nothing;
        }
        match key.code {
            Key::Esc => {
                self.should_quit = true;
                Effect::Nothing
            },
            Key::Up => {
                self.selected_mut(-1);
                Effect::Nothing
            },
            Key::Down => {
                self.selected_mut(1);
                Effect::Nothing
            },
            Key::Enter => self.play_selected(),
            Key::Tab => self.next(),
            Key::BackTab => self.prev(),
            Key::Char(c) => {
                if c == 'q' {
                    self.should_quit = true;
                    Effect::Nothing
                } else if c == '/' || c == 'f' {
                    self.enter_search();
                    Effect::Nothing
                } else if c == '[' {
                    self.switch_playlist(-1)
                } else if c == ']' {
                    self.switch_playlist(1)
                } else if c == 'k' {
                    self.selected_mut(-1);
                    Effect::Nothing
                } else if c == 'j' {
                    self.selected_mut(1);
                    Effect::Nothing
                } else if c == 'l' {
                    self.play_selected()
                } else if c == ' ' {
                    self.toggle_pause()
                } else if c == 'n' {
                    self.next()
                } else if c == 'p' {
                    self.prev()
                } else if c == 'r' {
                    self.cycle_repeat();
                    Effect::Nothing
                } else if c == 's' {
                    self.toggle_shuffle();
                    Effect::Nothing
                } else if c == '=' || c == '+' {
                    self.change_volume(5)
                } else if c == '-' {
                    self.change_volume(-5)
                } else {
                    Effect::Nothing
                }
            },
            _ => Effect::Nothing,
        }
    }
}

} // verus!
