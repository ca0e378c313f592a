//! The music library: tracks, playlists, the rules that name playlists and
//! recognise audio files, and the assembly of a scanned music folder into
//! playlists.
use vstd::prelude::*;
use vstd::multiset::Multiset;

use crate::order::{reversed, sort_by_char_keys, sorted_by_key, views, with_key};
use crate::text::{
    chars_of, contains_chars, ends_with_chars, has_substring, lowercase, string_from_chars, to_lowercase, trim_chars, trimmed,
    without_suffix,
};

verus! {

broadcast use vstd::seq_lib::group_to_multiset_ensures, vstd::multiset::group_multiset_axioms;

/// A sub-folder of the music folder whose name holds this marker is a playlist.
pub const PLAYLIST_MARKER: &'static str = "歌单";

/// Name of the playlist that gathers every track outside a playlist folder.
pub const DEFAULT_PLAYLIST: &'static str = "歌曲架";

// ---------------------------------------------------------------------------
// paths
// ---------------------------------------------------------------------------

/// What `Path::file_name` gives for the path written `path` (the last
/// normal component), under the target's path syntax.
pub uninterp spec fn file_name_of(path: Seq<char>) -> Option<Seq<char>>;

/// What `Path::parent` gives for the path written `path`, under the
/// target's path syntax.
pub uninterp spec fn parent_of(path: Seq<char>) -> Option<Seq<char>>;

/// What `Path::starts_with` answers: `dir`'s components are a prefix of
/// `path`'s, under the target's path syntax.
pub uninterp spec fn is_under(path: Seq<char>, dir: Seq<char>) -> bool;

/// What `Path::join` builds from `base` and `child`, under the target's
/// path syntax.
pub uninterp spec fn joined(base: Seq<char>, child: Seq<char>) -> Seq<char>;

/// Calls `Path::file_name`; its result is a function of the path text alone.
#[verifier::external_body]
fn path_file_name(path: &str) -> (r: Option<String>)
    ensures
        (match r {
            Some(n) => file_name_of(path@) == Some(n@),
            None => file_name_of(path@) is None,
        }),
{
    std::path::Path::new(path).file_name().map(|n| n.to_string_lossy().into_owned())
}

/// Calls `Path::parent`; its result is a function of the path text alone.
#[verifier::external_body]
fn path_parent(path: &str) -> (r: Option<String>)
    ensures
        (match r {
            Some(p) => parent_of(path@) == Some(p@),
            None => parent_of(path@) is None,
        }),
{
    std::path::Path::new(path).parent().map(|p| p.to_string_lossy().into_owned())
}

/// Calls `Path::starts_with`; its answer is a function of the two path texts alone.
#[verifier::external_body]
fn path_is_under(path: &str, dir: &str) -> (r: bool)
    ensures
        r == is_under(path@, dir@),
{
    std::path::Path::new(path).starts_with(dir)
}

/// Calls `Path::join`; its result is a function of the two path texts alone.
#[verifier::external_body]
fn path_join(base: &str, child: &str) -> (r: String)
    ensures
        r@ == joined(base@, child@),
{
    std::path::Path::new(base).join(child).to_string_lossy().into_owned()
}

/// Position of the last `.` in `s`.
pub open spec fn last_dot(s: Seq<char>) -> Option<int>
    decreases s.len(),
{
    if s.len() == 0 {
        None
    } else if s.last() == '.' {
        Some(s.len() - 1)
    } else {
        last_dot(s.drop_last())
    }
}

/// The stem of a file name, as `Path::file_stem` documents it: the whole name
/// when it has no `.` or only a leading one, else the part before the last `.`.
pub open spec fn stem_of_name(n: Seq<char>) -> Seq<char> {
    match last_dot(n) {
        Some(i) => if i == 0 {
            n
        } else {
            n.subrange(0, i)
        },
        None => n,
    }
}

/// The extension of a file name, as `Path::extension` documents it: none when
/// the name has no `.` or only a leading one, else the part after the last `.`.
pub open spec fn extension_of_name(n: Seq<char>) -> Option<Seq<char>> {
    match last_dot(n) {
        Some(i) => if i == 0 {
            None
        } else {
            Some(n.subrange(i + 1, n.len() as int))
        },
        None => None,
    }
}

/// `Path::file_stem` of a path.
pub open spec fn file_stem_of(path: Seq<char>) -> Option<Seq<char>> {
    match file_name_of(path) {
        Some(n) => Some(stem_of_name(n)),
        None => None,
    }
}

/// `Path::extension` of a path.
pub open spec fn extension_of(path: Seq<char>) -> Option<Seq<char>> {
    match file_name_of(path) {
        Some(n) => extension_of_name(n),
        None => None,
    }
}

/// Position of the last `.` in `s`.
fn find_last_dot(s: &[char]) -> (r: Option<usize>)
    ensures
        (match r {
            Some(i) => last_dot(s@) == Some(i as int),
            None => last_dot(s@) is None,
        }),
        r matches Some(i) ==> i < s@.len(),
{
    let mut i: usize = s.len();
    assert(s@.subrange(0, i as int) =~= s@);
    while i > 0 && s[i - 1] != '.'
        invariant
            i <= s@.len(),
            last_dot(s@) == last_dot(s@.subrange(0, i as int)),
        decreases i,
    {
        assert(s@.subrange(0, i as int).drop_last() =~= s@.subrange(0, i - 1));
        i = i - 1;
    }
    if i == 0 {
        None
    } else {
        Some(i - 1)
    }
}

/// The characters `s[from..to]`.
fn slice_chars(s: &[char], from: usize, to: usize) -> (r: Vec<char>)
    requires
        from <= to <= s@.len(),
    ensures
        r@ == s@.subrange(from as int, to as int),
{
    let mut out: Vec<char> = Vec::new();
    let mut k: usize = from;
    while k < to
        invariant
            from <= k <= to <= s@.len(),
            out@ =~= s@.subrange(from as int, k as int),
        decreases to - k,
    {
        out.push(s[k]);
        k = k + 1;
    }
    out
}

/// The stem of a file name (the rule of `Path::file_stem`): the whole name
/// when it has no `.` or only a leading one, else the part before the last `.`.
pub fn stem_of_file_name(name: &str) -> (r: String)
    ensures
        r@ == stem_of_name(name@),
{
    let cs = chars_of(name);
    match find_last_dot(cs.as_slice()) {
        Some(i) => {
            if i == 0 {
                String::from_str(name)
            } else {
                let stem = slice_chars(cs.as_slice(), 0, i);
                string_from_chars(stem.as_slice())
            }
        },
        None => String::from_str(name),
    }
}

/// The extension of a file name (the rule of `Path::extension`): none when
/// the name has no `.` or only a leading one, else the part after the last `.`.
pub fn extension_of_file_name(name: &str) -> (r: Option<String>)
    ensures
        (match r {
            Some(e) => extension_of_name(name@) == Some(e@),
            None => extension_of_name(name@) is None,
        }),
{
    let cs = chars_of(name);
    match find_last_dot(cs.as_slice()) {
        Some(i) => {
            if i == 0 {
                None
            } else {
                let n: usize = cs.len();
                assert(i < n);
                let ext = slice_chars(cs.as_slice(), i + 1, n);
                Some(string_from_chars(ext.as_slice()))
            }
        },
        None => None,
    }
}

/// The stem of the file name of `path` (`Path::file_stem`).
pub fn file_stem(path: &str) -> (r: Option<String>)
    ensures
        (match r {
            Some(s) => file_stem_of(path@) == Some(s@),
            None => file_stem_of(path@) is None,
        }),
{
    match path_file_name(path) {
        None => None,
        Some(name) => Some(stem_of_file_name(name.as_str())),
    }
}

/// The extension of the file name of `path` (`Path::extension`).
pub fn extension(path: &str) -> (r: Option<String>)
    ensures
        (match r {
            Some(e) => extension_of(path@) == Some(e@),
            None => extension_of(path@) is None,
        }),
{
    match path_file_name(path) {
        None => None,
        Some(name) => extension_of_file_name(name.as_str()),
    }
}

// ---------------------------------------------------------------------------
// tracks and playlists
// ---------------------------------------------------------------------------

/// One audio file of the library. `path` is the file's path as text and
/// `duration_ms` its length in milliseconds (0 when unknown).
pub struct Track {
    pub path: String,
    pub title: String,
    pub artist: String,
    pub duration_ms: u64,
}

/// The mathematical value of a [`Track`].
pub struct TrackView {
    pub path: Seq<char>,
    pub title: Seq<char>,
    pub artist: Seq<char>,
    pub duration_ms: u64,
}

impl View for Track {
    type V = TrackView;

    open spec fn view(&self) -> TrackView {
        TrackView {
            path: self.path@,
            title: self.title@,
            artist: self.artist@,
            duration_ms: self.duration_ms,
        }
    }
}

/// A named list of tracks.
pub struct Playlist {
    pub name: String,
    pub tracks: Vec<Track>,
}

/// The mathematical value of a [`Playlist`].
pub struct PlaylistView {
    pub name: Seq<char>,
    pub tracks: Seq<TrackView>,
}

impl View for Playlist {
    type V = PlaylistView;

    open spec fn view(&self) -> PlaylistView {
        PlaylistView { name: self.name@, tracks: views(self.tracks@) }
    }
}

/// The name a track is listed under: its title, or else its file stem, or `?`.
pub open spec fn display_name_of(t: TrackView) -> Seq<char> {
    if t.title.len() == 0 {
        match file_stem_of(t.path) {
            Some(s) => s,
            None => "?"@,
        }
    } else {
        t.title
    }
}

/// The second line of a track: its artist, or else the name of its folder, or nothing.
pub open spec fn subtitle_of(t: TrackView) -> Seq<char> {
    if t.artist.len() == 0 {
        match parent_of(t.path) {
            Some(p) => match file_name_of(p) {
                Some(n) => n,
                None => Seq::empty(),
            },
            None => Seq::empty(),
        }
    } else {
        t.artist
    }
}

/// The key tracks are ordered by inside a playlist: the lower-cased display name.
pub open spec fn track_key(t: TrackView) -> Seq<char> {
    lowercase(display_name_of(t))
}

/// [`track_key`] as a function value.
pub open spec fn track_order() -> spec_fn(TrackView) -> Seq<char> {
    |t: TrackView| track_key(t)
}

impl Track {
    /// The title, or the file stem when the title is empty, or `?` without a stem.
    pub fn display_name(&self) -> (r: String)
        ensures
            r@ == display_name_of(self@),
    {
        if self.title.as_str().is_empty() {
            match file_stem(self.path.as_str()) {
                Some(s) => s,
                None => String::from_str("?"),
            }
        } else {
            self.title.clone()
        }
    }

    /// The artist, or the name of the containing folder when the artist is empty.
    pub fn subtitle(&self) -> (r: String)
        ensures
            r@ == subtitle_of(self@),
    {
        if self.artist.as_str().is_empty() {
            match path_parent(self.path.as_str()) {
                Some(p) => match path_file_name(p.as_str()) {
                    Some(n) => n,
                    None => String::new(),
                },
                None => String::new(),
            }
        } else {
            self.artist.clone()
        }
    }
}

// ---------------------------------------------------------------------------
// audio files
// ---------------------------------------------------------------------------

/// The extensions (in lower case) of the audio formats the player handles.
pub open spec fn is_audio_extension(e: Seq<char>) -> bool {
    ||| e == "mp3"@
    ||| e == "flac"@
    ||| e == "wav"@
    ||| e == "ogg"@
    ||| e == "vorbis"@
    ||| e == "m4a"@
    ||| e == "aac"@
    ||| e == "opus"@
    ||| e == "aiff"@
    ||| e == "aif"@
    ||| e == "alac"@
}

/// A path names an audio file when its extension, lower-cased, is an audio extension.
pub open spec fn is_audio_path(p: Seq<char>) -> bool {
    match extension_of(p) {
        Some(e) => is_audio_extension(lowercase(e)),
        None => false,
    }
}

/// Whether two character sequences are equal.
fn same_chars(a: &[char], b: &[char]) -> (r: bool)
    ensures
        r == (a@ == b@),
{
    if a.len() != b.len() {
        return false;
    }
    let mut i: usize = 0;
    while i < a.len()
        invariant
            a@.len() == b@.len(),
            i <= a@.len(),
            forall|k: int| 0 <= k < i ==> a@[k] == b@[k],
        decreases a@.len() - i,
    {
        if a[i] != b[i] {
            return false;
        }
        i = i + 1;
    }
    assert(a@ =~= b@);
    true
}

/// Whether `e` equals the text of `word`.
fn is_word(e: &[char], word: &str) -> (r: bool)
    ensures
        r == (e@ == word@),
{
    let w = chars_of(word);
    same_chars(e, w.as_slice())
}

/// Whether the lower-case extension `e` is one of the audio extensions.
pub fn is_audio_extension_lower(e: &str) -> (r: bool)
    ensures
        r == is_audio_extension(e@),
{
    let l = chars_of(e);
    let s = l.as_slice();
    is_word(s, "mp3") || is_word(s, "flac") || is_word(s, "wav") || is_word(s, "ogg") || is_word(
        s,
        "vorbis",
    ) || is_word(s, "m4a") || is_word(s, "aac") || is_word(s, "opus") || is_word(s, "aiff")
        || is_word(s, "aif") || is_word(s, "alac")
}

/// Whether `p` is the path of an audio file, judged by its extension in any case.
pub fn is_audio(p: &str) -> (r: bool)
    ensures
        r == is_audio_path(p@),
{
    match extension(p) {
        None => false,
        Some(e) => {
            let lower = to_lowercase(e.as_str());
            is_audio_extension_lower(lower.as_str())
        },
    }
}

// ---------------------------------------------------------------------------
// naming
// ---------------------------------------------------------------------------

/// The playlist name of a playlist folder: its name without the marker
/// suffix, trimmed; the folder name itself when that leaves nothing.
pub open spec fn playlist_name_of(d: Seq<char>) -> Seq<char> {
    let t = trimmed(without_suffix(d, PLAYLIST_MARKER@));
    if t.len() == 0 {
        d
    } else {
        t
    }
}

/// A folder with a name gets a playlist name: without the marker suffix and
/// surrounding white space when that leaves something, else its own name.
pub proof fn law_playlist_name(d: Seq<char>)
    ensures
        d.len() > 0 ==> playlist_name_of(d).len() > 0,
        playlist_name_of(d) == d || playlist_name_of(d) == trimmed(without_suffix(d, PLAYLIST_MARKER@)),
{
}

/// The playlist name for the folder named `dir_name`.
pub fn playlist_name(dir_name: &str) -> (r: String)
    ensures
        r@ == playlist_name_of(dir_name@),
{
    let cs = chars_of(dir_name);
    let m = chars_of(PLAYLIST_MARKER);
    let stripped = if ends_with_chars(cs.as_slice(), m.as_slice()) {
        slice_chars(cs.as_slice(), 0, cs.len() - m.len())
    } else {
        cs
    };
    let t = trim_chars(stripped.as_slice());
    if t.len() == 0 {
        String::from_str(dir_name)
    } else {
        string_from_chars(t.as_slice())
    }
}

/// The music folder used when none is given: `Music` under the home
/// folder, or the working directory when no home folder is known.
pub fn default_music_dir(home: Option<String>) -> (r: String)
    ensures
        r@ == (match home {
            Some(h) => joined(h@, "Music"@),
            None => "."@,
        }),
{
    match home {
        Some(h) => path_join(h.as_str(), "Music"),
        None => String::from_str("."),
    }
}

// ---------------------------------------------------------------------------
// assembling a scanned music folder
// ---------------------------------------------------------------------------

/// A folder directly inside the music folder: its name and its path.
pub struct Folder {
    pub name: String,
    pub path: String,
}

/// The mathematical value of a [`Folder`].
pub struct FolderView {
    pub name: Seq<char>,
    pub path: Seq<char>,
}

impl View for Folder {
    type V = FolderView;

    open spec fn view(&self) -> FolderView {
        FolderView { name: self.name@, path: self.path@ }
    }
}

/// A folder is a playlist folder when its name holds the playlist marker.
pub open spec fn is_playlist_folder(f: FolderView) -> bool {
    has_substring(f.name, PLAYLIST_MARKER@)
}

/// A playlist folder under its playlist name.
pub open spec fn renamed_folder(f: FolderView) -> FolderView {
    FolderView { name: playlist_name_of(f.name), path: f.path }
}

/// The playlist folders among `fs`, in order, under their playlist names.
pub open spec fn playlist_folders_of(fs: Seq<FolderView>) -> Seq<FolderView> {
    fs.filter(|f: FolderView| is_playlist_folder(f)).map_values(|f: FolderView| renamed_folder(f))
}

/// Folders are ordered by name.
pub open spec fn folder_key(f: FolderView) -> Seq<char> {
    f.name
}

/// [`folder_key`] as a function value.
pub open spec fn folder_order() -> spec_fn(FolderView) -> Seq<char> {
    |f: FolderView| folder_key(f)
}

/// The playlist folders among the folders directly inside the music folder,
/// renamed to their playlist names and ordered by name.
pub fn playlist_folders(folders: Vec<Folder>) -> (r: Vec<Folder>)
    ensures
        views(r@).to_multiset() == playlist_folders_of(views(folders@)).to_multiset(),
        sorted_by_key(views(r@), folder_order()),
        forall|k: Seq<char>|
            #[trigger] with_key(views(r@), folder_order(), k) == with_key(
                playlist_folders_of(views(folders@)),
                folder_order(),
                k,
            ),
{
    let ghost orig = views(folders@);
    let n: usize = folders.len();
    let mut rest = reversed(folders);
    let mut kept: Vec<Folder> = Vec::new();
    let marker = chars_of(PLAYLIST_MARKER);
    let mut k: usize = 0;
    assert(orig.take(0).filter(|f: FolderView| is_playlist_folder(f)) =~= Seq::<FolderView>::empty())
        by {
        reveal(Seq::filter);
    }
    while rest.len() > 0
        invariant
            n == orig.len(),
            k + rest@.len() == n,
            forall|i: int| 0 <= i < rest@.len() ==> (#[trigger] rest@[i])@ == orig[n - 1 - i],
            views(kept@) == playlist_folders_of(orig.take(k as int)),
            marker@ == PLAYLIST_MARKER@,
        decreases rest@.len(),
    {
        let f = rest.pop().unwrap();
        assert(f@ == orig[k as int]);
        let name_chars = chars_of(f.name.as_str());
        let ghost before = views(kept@);
        proof {
            reveal(Seq::filter);
            assert(orig.take(k + 1).drop_last() =~= orig.take(k as int));
            assert(orig.take(k + 1).last() == orig[k as int]);
        }
        if contains_chars(name_chars.as_slice(), marker.as_slice()) {
            let name = playlist_name(f.name.as_str());
            let g = Folder { name, path: f.path };
            kept.push(g);
            assert(views(kept@) =~= before.push(renamed_folder(orig[k as int])));
        }
        k = k + 1;
        assert(playlist_folders_of(orig.take(k as int)) =~= views(kept@));
    }
    assert(orig.take(n as int) =~= orig);
    let mut keys: Vec<Vec<char>> = Vec::new();
    let mut i: usize = 0;
    while i < kept.len()
        invariant
            i <= kept@.len(),
            keys@.len() == i,
            forall|j: int| 0 <= j < i ==> keys@[j]@ == folder_order()(#[trigger] kept@[j]@),
        decreases kept@.len() - i,
    {
        keys.push(chars_of(kept[i].name.as_str()));
        i = i + 1;
    }
    sort_by_char_keys(kept, keys, Ghost(folder_order()))
}

/// `g` is the group of a track at `path`: the first playlist folder holding
/// it, or `dirs.len()` when none does.
pub open spec fn is_group(path: Seq<char>, dirs: Seq<FolderView>, g: int) -> bool {
    &&& 0 <= g <= dirs.len()
    &&& forall|k: int| 0 <= k < g ==> !is_under(path, #[trigger] dirs[k].path)
    &&& g < dirs.len() ==> is_under(path, dirs[g].path)
}

/// The group of a track at `path` among the playlist folders `dirs`.
pub open spec fn group_index(path: Seq<char>, dirs: Seq<FolderView>) -> int {
    choose|g: int| is_group(path, dirs, g)
}

/// The tracks of group `g`, in scan order.
pub open spec fn members(tracks: Seq<TrackView>, dirs: Seq<FolderView>, g: int) -> Seq<
    TrackView,
> {
    tracks.filter(|t: TrackView| group_index(t.path, dirs) == g)
}

/// The indices below `upto` of the playlist folders that hold at least one track.
pub open spec fn occupied(tracks: Seq<TrackView>, dirs: Seq<FolderView>, upto: int) -> Seq<int> {
    Seq::new(upto as nat, |i: int| i).filter(|i: int| members(tracks, dirs, i).len() > 0)
}

/// `pl` is named `name` and holds the tracks `content`, ordered by track key.
pub open spec fn holds_sorted(pl: PlaylistView, name: Seq<char>, content: Seq<TrackView>) -> bool {
    &&& pl.name == name
    &&& pl.tracks.to_multiset() == content.to_multiset()
    &&& sorted_by_key(pl.tracks, track_order())
    &&& forall|k: Seq<char>|
        #[trigger] with_key(pl.tracks, track_order(), k) == with_key(content, track_order(), k)
}

/// The playlists a scan yields from its tracks: the default playlist with the
/// tracks outside every playlist folder, then one playlist per playlist
/// folder that holds tracks, in folder order; nothing at all when there are
/// no tracks.
pub open spec fn assembled(
    r: Seq<PlaylistView>,
    tracks: Seq<TrackView>,
    dirs: Seq<FolderView>,
) -> bool {
    let occ = occupied(tracks, dirs, dirs.len() as int);
    let shelf = members(tracks, dirs, dirs.len() as int);
    if shelf.len() == 0 && occ.len() == 0 {
        r.len() == 0
    } else {
        &&& r.len() == occ.len() + 1
        &&& holds_sorted(r[0], DEFAULT_PLAYLIST@, shelf)
        &&& forall|k: int|
            0 <= k < occ.len() ==> holds_sorted(
                #[trigger] r[k + 1],
                dirs[occ[k]].name,
                members(tracks, dirs, occ[k]),
            )
    }
}

proof fn lemma_group_unique(path: Seq<char>, dirs: Seq<FolderView>, g: int)
    requires
        is_group(path, dirs, g),
    ensures
        group_index(path, dirs) == g,
{
    let h = group_index(path, dirs);
    assert(is_group(path, dirs, h));
    if h < g {
        assert(!is_under(path, dirs[h].path));
    }
    if g < h {
        assert(!is_under(path, dirs[g].path));
    }
}

/// The group of the track at `path`.
fn find_group(path: &str, dirs: &Vec<Folder>) -> (g: usize)
    ensures
        g as int == group_index(path@, views(dirs@)),
        g <= dirs@.len(),
{
    let ghost dv = views(dirs@);
    let mut i: usize = 0;
    while i < dirs.len()
        invariant
            i <= dirs@.len(),
            dv == views(dirs@),
            forall|k: int| 0 <= k < i ==> !is_under(path@, #[trigger] dv[k].path),
        decreases dirs@.len() - i,
    {
        if path_is_under(path, dirs[i].path.as_str()) {
            proof {
                lemma_group_unique(path@, dv, i as int);
            }
            return i;
        }
        i = i + 1;
    }
    proof {
        lemma_group_unique(path@, dv, i as int);
    }
    i
}

/// `t`'s tracks ordered by track key (equal keys keep their order).
fn sort_tracks(t: Vec<Track>) -> (r: Vec<Track>)
    ensures
        views(r@).to_multiset() == views(t@).to_multiset(),
        sorted_by_key(views(r@), track_order()),
        forall|k: Seq<char>|
            #[trigger] with_key(views(r@), track_order(), k) == with_key(views(t@), track_order(), k),
{
    let mut keys: Vec<Vec<char>> = Vec::new();
    let mut i: usize = 0;
    while i < t.len()
        invariant
            i <= t@.len(),
            keys@.len() == i,
            forall|j: int| 0 <= j < i ==> keys@[j]@ == track_order()(#[trigger] t@[j]@),
        decreases t@.len() - i,
    {
        let name = t[i].display_name();
        let lower = to_lowercase(name.as_str());
        keys.push(chars_of(lower.as_str()));
        i = i + 1;
    }
    sort_by_char_keys(t, keys, Ghost(track_order()))
}

/// Builds the playlists of a scan from the playlist folders (as
/// [`playlist_folders`] returns them) and the audio tracks found, in scan
/// order: each track goes to the first folder that holds it, or else to the
/// default playlist.
pub fn assemble_playlists(dirs: Vec<Folder>, tracks: Vec<Track>) -> (r: Vec<Playlist>)
    ensures
        assembled(views(r@), views(tracks@), views(dirs@)),
{
    let ghost tv = views(tracks@);
    let ghost dv = views(dirs@);
    let d: usize = dirs.len();
    let n: usize = tracks.len();
    let mut groups: Vec<Vec<Track>> = Vec::new();
    let mut j: usize = 0;
    while j < d
        invariant
            j <= d,
            d == dirs@.len(),
            groups@.len() == j,
            forall|g: int| 0 <= g < j ==> (#[trigger] groups@[g])@.len() == 0,
        decreases d - j,
    {
        groups.push(Vec::new());
        j = j + 1;
    }
    groups.push(Vec::new());
    proof {
        reveal(Seq::filter);
        assert forall|g: int| 0 <= g <= d implies views(#[trigger] groups@[g]@) == members(
            tv.take(0),
            dv,
            g,
        ) by {
            assert(views(groups@[g]@) =~= Seq::<TrackView>::empty());
            assert(tv.take(0) =~= Seq::<TrackView>::empty());
        }
    }
    let mut rest = reversed(tracks);
    let mut k: usize = 0;
    while rest.len() > 0
        invariant
            n == tv.len(),
            d == dv.len(),
            dv == views(dirs@),
            k + rest@.len() == n,
            forall|i: int| 0 <= i < rest@.len() ==> (#[trigger] rest@[i])@ == tv[n - 1 - i],
            groups@.len() == d + 1,
            forall|g: int| 0 <= g <= d ==> views(#[trigger] groups@[g]@) == members(
                tv.take(k as int),
                dv,
                g,
            ),
        decreases rest@.len(),
    {
        let t = rest.pop().unwrap();
        assert(t@ == tv[k as int]);
        let g = find_group(t.path.as_str(), &dirs);
        let ghost old_groups = groups@;
        groups[g].push(t);
        proof {
            reveal(Seq::filter);
            assert(tv.take(k + 1).drop_last() =~= tv.take(k as int));
            assert(tv.take(k + 1).last() == tv[k as int]);
            assert forall|h: int| 0 <= h <= d implies views(#[trigger] groups@[h]@) == members(
                tv.take(k + 1),
                dv,
                h,
            ) by {
                if h == g {
                    assert(views(groups@[h]@) =~= views(old_groups[h]@).push(tv[k as int]));
                } else {
                    assert(groups@[h] == old_groups[h]);
                }
            }
        }
        k = k + 1;
    }
    assert(tv.take(n as int) =~= tv);
    let mut named: Vec<Playlist> = Vec::new();
    let mut g: usize = 0;
    proof {
        reveal(Seq::filter);
        assert(occupied(tv, dv, 0) =~= Seq::<int>::empty());
    }
    while g < d
        invariant
            g <= d,
            d == dv.len(),
            dv == views(dirs@),
            groups@.len() == d + 1,
            forall|h: int| g <= h <= d ==> views(#[trigger] groups@[h]@) == members(tv, dv, h),
            named@.len() == occupied(tv, dv, g as int).len(),
            forall|i: int|
                0 <= i < named@.len() ==> holds_sorted(
                    (#[trigger] named@[i])@,
                    dv[occupied(tv, dv, g as int)[i]].name,
                    members(tv, dv, occupied(tv, dv, g as int)[i]),
                ),
        decreases d - g,
    {
        let mut taken: Vec<Track> = Vec::new();
        let ghost old_groups = groups@;
        std::mem::swap(&mut groups[g], &mut taken);
        assert(views(taken@) == members(tv, dv, g as int));
        let ghost f = |i: int| i;
        proof {
            reveal(Seq::filter);
            assert(Seq::new((g + 1) as nat, f).drop_last() =~= Seq::new(g as nat, f));
            assert(Seq::new((g + 1) as nat, f).last() == g as int);
        }
        if taken.len() > 0 {
            let sorted = sort_tracks(taken);
            let pl = Playlist { name: dirs[g].name.clone(), tracks: sorted };
            named.push(pl);
            assert(occupied(tv, dv, g + 1) =~= occupied(tv, dv, g as int).push(g as int));
        } else {
            assert(occupied(tv, dv, g + 1) =~= occupied(tv, dv, g as int));
        }
        proof {
            assert forall|h: int| g + 1 <= h <= d implies views(#[trigger] groups@[h]@) == members(
                tv,
                dv,
                h,
            ) by {
                assert(groups@[h] == old_groups[h]);
            }
        }
        g = g + 1;
    }
    let mut shelf_tracks: Vec<Track> = Vec::new();
    std::mem::swap(&mut groups[d], &mut shelf_tracks);
    if shelf_tracks.len() == 0 && named.len() == 0 {
        return Vec::new();
    }
    let shelf = Playlist { name: String::from_str(DEFAULT_PLAYLIST), tracks: sort_tracks(shelf_tracks) };
    let mut r: Vec<Playlist> = Vec::new();
    r.push(shelf);
    r.append(&mut named);
    r
}

// ---------------------------------------------------------------------------
// no track is lost or duplicated by a scan
// ---------------------------------------------------------------------------

/// The tracks held by the first `k` playlists of `r`, counted with multiplicity.
pub open spec fn contents_upto(r: Seq<PlaylistView>, k: int) -> Multiset<TrackView>
    decreases k,
{
    if k <= 0 || k > r.len() {
        Multiset::empty()
    } else {
        contents_upto(r, k - 1).add(r[k - 1].tracks.to_multiset())
    }
}

/// The tracks of the groups below `k`.
pub open spec fn group_contents(t: Seq<TrackView>, d: Seq<FolderView>, k: int) -> Multiset<
    TrackView,
>
    decreases k,
{
    if k <= 0 {
        Multiset::empty()
    } else {
        group_contents(t, d, k - 1).add(members(t, d, k - 1).to_multiset())
    }
}

/// The tracks of the groups `o[0..m]`.
pub open spec fn listed_contents(t: Seq<TrackView>, d: Seq<FolderView>, o: Seq<int>, m: int) -> Multiset<
    TrackView,
>
    decreases m,
{
    if m <= 0 || m > o.len() {
        Multiset::empty()
    } else {
        listed_contents(t, d, o, m - 1).add(members(t, d, o[m - 1]).to_multiset())
    }
}

proof fn lemma_group_exists(path: Seq<char>, dirs: Seq<FolderView>)
    ensures
        is_group(path, dirs, group_index(path, dirs)),
    decreases dirs.len(),
{
    if dirs.len() == 0 {
        assert(is_group(path, dirs, 0));
    } else {
        let pre = dirs.drop_last();
        lemma_group_exists(path, pre);
        let g = group_index(path, pre);
        let n = dirs.len() - 1;
        assert forall|k: int| 0 <= k < n implies #[trigger] dirs[k] == pre[k] by {}
        if g < n {
            assert forall|k: int| 0 <= k < g implies !is_under(path, #[trigger] dirs[k].path) by {
                assert(dirs[k] == pre[k]);
            }
            assert(dirs[g] == pre[g]);
            assert(is_group(path, dirs, g));
        } else if is_under(path, dirs[n].path) {
            assert forall|k: int| 0 <= k < n implies !is_under(path, #[trigger] dirs[k].path) by {
                assert(dirs[k] == pre[k]);
            }
            assert(is_group(path, dirs, n));
        } else {
            assert forall|k: int| 0 <= k < n implies !is_under(path, #[trigger] dirs[k].path) by {
                assert(dirs[k] == pre[k]);
            }
            assert(is_group(path, dirs, n + 1));
        }
    }
}

proof fn lemma_group_contents_empty(t: Seq<TrackView>, d: Seq<FolderView>, k: int)
    requires
        t.len() == 0,
    ensures
        group_contents(t, d, k) =~= Multiset::empty(),
    decreases k,
{
    reveal(Seq::filter);
    if k > 0 {
        lemma_group_contents_empty(t, d, k - 1);
        assert(members(t, d, k - 1) =~= Seq::<TrackView>::empty());
    }
}

proof fn lemma_group_contents_push(t: Seq<TrackView>, d: Seq<FolderView>, x: TrackView, k: int)
    ensures
        group_contents(t.push(x), d, k) == (if 0 <= group_index(x.path, d) < k {
            group_contents(t, d, k).insert(x)
        } else {
            group_contents(t, d, k)
        }),
    decreases k,
{
    if k > 0 {
        lemma_group_contents_push(t, d, x, k - 1);
        reveal(Seq::filter);
        assert(t.push(x).drop_last() =~= t);
        let g = k - 1;
        if group_index(x.path, d) == g {
            assert(members(t.push(x), d, g) == members(t, d, g).push(x));
        } else {
            assert(members(t.push(x), d, g) == members(t, d, g));
        }
        assert(group_contents(t.push(x), d, k) =~= (if 0 <= group_index(x.path, d) < k {
            group_contents(t, d, k).insert(x)
        } else {
            group_contents(t, d, k)
        }));
    }
}

proof fn lemma_partition(t: Seq<TrackView>, d: Seq<FolderView>)
    ensures
        group_contents(t, d, d.len() + 1 as int) == t.to_multiset(),
    decreases t.len(),
{
    if t.len() == 0 {
        lemma_group_contents_empty(t, d, d.len() + 1 as int);
        assert(t.to_multiset() =~= Multiset::empty());
    } else {
        let pre = t.drop_last();
        let x = t.last();
        lemma_partition(pre, d);
        lemma_group_exists(x.path, d);
        lemma_group_contents_push(pre, d, x, d.len() + 1 as int);
        assert(pre.push(x) =~= t);
    }
}

proof fn lemma_listed_prefix(t: Seq<TrackView>, d: Seq<FolderView>, o: Seq<int>, o2: Seq<int>, m: int)
    requires
        0 <= m <= o.len(),
        m <= o2.len(),
        forall|i: int| 0 <= i < m ==> o[i] == o2[i],
    ensures
        listed_contents(t, d, o, m) == listed_contents(t, d, o2, m),
    decreases m,
{
    if m > 0 {
        lemma_listed_prefix(t, d, o, o2, m - 1);
    }
}

proof fn lemma_occupied_contents(t: Seq<TrackView>, d: Seq<FolderView>, u: int)
    requires
        0 <= u,
    ensures
        group_contents(t, d, u) == listed_contents(
            t,
            d,
            occupied(t, d, u),
            occupied(t, d, u).len() as int,
        ),
    decreases u,
{
    if u == 0 {
        reveal(Seq::filter);
        assert(occupied(t, d, 0) =~= Seq::<int>::empty());
    } else {
        lemma_occupied_contents(t, d, u - 1);
        reveal(Seq::filter);
        let f = |i: int| i;
        assert(Seq::new(u as nat, f).drop_last() =~= Seq::new((u - 1) as nat, f));
        let o = occupied(t, d, u - 1);
        let o2 = occupied(t, d, u);
        let g = u - 1;
        if members(t, d, g).len() > 0 {
            assert(o2 == o.push(g));
            lemma_listed_prefix(t, d, o, o2, o.len() as int);
        } else {
            assert(o2 == o);
            assert(members(t, d, g).to_multiset() =~= Multiset::empty());
            assert(group_contents(t, d, u) =~= group_contents(t, d, u - 1));
        }
    }
}

proof fn lemma_contents_of_assembled(
    r: Seq<PlaylistView>,
    t: Seq<TrackView>,
    d: Seq<FolderView>,
    m: int,
)
    requires
        r.len() == occupied(t, d, d.len() as int).len() + 1,
        holds_sorted(r[0], DEFAULT_PLAYLIST@, members(t, d, d.len() as int)),
        forall|k: int|
            0 <= k < occupied(t, d, d.len() as int).len() ==> holds_sorted(
                #[trigger] r[k + 1],
                d[occupied(t, d, d.len() as int)[k]].name,
                members(t, d, occupied(t, d, d.len() as int)[k]),
            ),
        0 <= m <= occupied(t, d, d.len() as int).len(),
    ensures
        contents_upto(r, m + 1) == members(t, d, d.len() as int).to_multiset().add(
            listed_contents(t, d, occupied(t, d, d.len() as int), m),
        ),
    decreases m,
{
    if m == 0 {
        assert(contents_upto(r, 0) =~= Multiset::empty());
        assert(listed_contents(t, d, occupied(t, d, d.len() as int), 0) =~= Multiset::empty());
        assert(contents_upto(r, 1) =~= members(t, d, d.len() as int).to_multiset().add(
            Multiset::empty(),
        ));
    } else {
        lemma_contents_of_assembled(r, t, d, m - 1);
        assert(holds_sorted(r[m], d[occupied(t, d, d.len() as int)[m - 1]].name,
            members(t, d, occupied(t, d, d.len() as int)[m - 1])));
        assert(contents_upto(r, m + 1) =~= members(t, d, d.len() as int).to_multiset().add(
            listed_contents(t, d, occupied(t, d, d.len() as int), m),
        ));
    }
}

/// A scan loses and duplicates no track: the playlists it assembles hold,
/// together, exactly the tracks found.
pub proof fn law_scan_keeps_every_track(
    r: Seq<PlaylistView>,
    t: Seq<TrackView>,
    d: Seq<FolderView>,
)
    requires
        assembled(r, t, d),
    ensures
        contents_upto(r, r.len() as int) == t.to_multiset(),
{
    let n = d.len() as int;
    let occ = occupied(t, d, n);
    lemma_partition(t, d);
    lemma_occupied_contents(t, d, n);
    assert(group_contents(t, d, n + 1) == group_contents(t, d, n).add(members(t, d, n).to_multiset()));
    if members(t, d, n).len() == 0 && occ.len() == 0 {
        assert(members(t, d, n).to_multiset() =~= Multiset::empty());
        assert(contents_upto(r, r.len() as int) =~= Multiset::empty());
        assert(t.to_multiset() =~= Multiset::empty());
    } else {
        lemma_contents_of_assembled(r, t, d, occ.len() as int);
        assert(contents_upto(r, r.len() as int) =~= t.to_multiset());
    }
}


/// The audio files are exactly those whose extension, lower-cased, is one of
/// mp3, flac, wav, ogg, vorbis, m4a, aac, opus, aiff, aif and alac.
pub proof fn law_audio_extensions(p: Seq<char>)
    ensures
        is_audio_path(p) <==> (extension_of(p) matches Some(e) && {
            let l = lowercase(e);
            ||| l == "mp3"@
            ||| l == "flac"@
            ||| l == "wav"@
            ||| l == "ogg"@
            ||| l == "vorbis"@
            ||| l == "m4a"@
            ||| l == "aac"@
            ||| l == "opus"@
            ||| l == "aiff"@
            ||| l == "aif"@
            ||| l == "alac"@
        }),
{
}

/// A folder is a playlist folder exactly when the marker occurs somewhere
/// in its name: at its start, its end or anywhere in between.
pub proof fn law_marker_anywhere(f: FolderView, a: Seq<char>, b: Seq<char>)
    ensures
        f.name == a + PLAYLIST_MARKER@ + b ==> is_playlist_folder(f),
        is_playlist_folder(f) ==> exists|x: Seq<char>, y: Seq<char>|
            f.name == x + PLAYLIST_MARKER@ + y,
{
    let m = PLAYLIST_MARKER@;
    if f.name == a + m + b {
        assert(f.name.subrange(a.len() as int, (a.len() + m.len()) as int) =~= m);
        assert(crate::text::occurs_at(f.name, m, a.len() as int));
    }
    if is_playlist_folder(f) {
        let i = choose|i: int| crate::text::occurs_at(f.name, m, i);
        let x = f.name.subrange(0, i);
        let y = f.name.subrange(i + m.len(), f.name.len() as int);
        assert(f.name =~= x + m + y);
    }
}

/// Every folder whose name holds the marker, wherever it stands in the
/// name, becomes a playlist folder under its playlist name.
pub proof fn law_marked_folder_kept(fs: Seq<FolderView>, k: int, a: Seq<char>, b: Seq<char>)
    requires
        0 <= k < fs.len(),
        fs[k].name == a + PLAYLIST_MARKER@ + b,
    ensures
        playlist_folders_of(fs).contains(renamed_folder(fs[k])),
{
    law_marker_anywhere(fs[k], a, b);
    let p = |f: FolderView| is_playlist_folder(f);
    fs.lemma_filter_contains(p, k);
    let kept = fs.filter(p);
    let j = choose|j: int| 0 <= j < kept.len() && kept[j] == fs[k];
    let r = kept.map_values(|f: FolderView| renamed_folder(f));
    assert(r[j] == renamed_folder(fs[k]));
}

} // verus!
