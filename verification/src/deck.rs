//! The player's decisions: which screen shows, which tape is loaded, what the
//! transport keys, the media keys and the clock do, and what the audio thread,
//! the media-key service, the label painter and the fan browser are told.
//!
//! `Deck::update` takes one message and the current time in milliseconds and
//! returns the effects to carry out, in order; the caller performs them (audio
//! commands, file dialogs, scans, painting) and reports back with further
//! messages.
use vstd::prelude::*;
use crate::library::{Album, album_art_key, album_has_path, find_track};
use crate::state::{opt_chars, path_eq, SavedState};
use crate::text::{decimal, push_decimal};

verus! {

/// Which screen is showing.
#[derive(Clone, Copy, Debug, PartialEq, Eq, Structural)]
pub enum Screen {
    /// The cassette deck.
    Player,
    /// The cassette rack (fan browser).
    Rack,
    /// An album's case, big, over the dimmed rack.
    Reveal(usize),
    /// The cassette-load animation, then this track; started at this time.
    Loading { album: usize, track: usize, started_ms: u64 },
    /// The case-open animation, then this track; started at this time.
    CaseOpen { album: usize, track: usize, started_ms: u64 },
}

/// A deck sound effect.
#[derive(Clone, Copy, Debug, PartialEq, Eq, Structural)]
pub enum Sfx {
    /// A transport key clicks.
    KeyPress,
    /// The tape seats in the transport.
    TapeSeat,
    /// The auto-stop clunk when a tape runs out.
    EndClack,
}

/// A command for the audio thread.
#[derive(Debug, PartialEq, Eq)]
pub enum AudioCmd {
    /// Stop whatever plays, open this file, play it from the start.
    Load(String),
    Pause,
    Resume,
    Stop,
    /// Seek to this position, in milliseconds.
    Seek(u64),
    Sfx(Sfx),
    /// Start (true) or stop (false) the wind whirr.
    Wind(bool),
}

/// What the media-key service is told.
#[derive(Debug, PartialEq, Eq)]
pub enum MprisUpdate {
    Metadata { title: String, artist: String, album: String, length_ms: u64 },
    Playing,
    Paused,
    Stopped,
}

/// A media-key (MPRIS) request.
#[derive(Clone, Copy, Debug, PartialEq, Eq, Structural)]
pub enum MprisCmd {
    PlayPause,
    Play,
    Pause,
    Stop,
    Next,
    Prev,
}

/// What the audio thread reports.
pub struct SharedStatus {
    /// The playback position, in milliseconds.
    pub position_ms: u64,
    pub playing: bool,
    /// Set once when a loaded track drains.
    pub track_finished: bool,
    /// A one-shot error to show.
    pub error: Option<String>,
}

/// Something the caller does on the deck's behalf.
#[derive(Debug, PartialEq, Eq)]
pub enum Effect {
    Audio(AudioCmd),
    Mpris(MprisUpdate),
    /// Write the state file, with the tape's position at this many
    /// milliseconds.
    SaveState(u64),
    /// Paint the cassette label for this song and album in the current skin.
    RenderLabel { song: String, album: String },
    /// Drop the painted label.
    ClearLabel,
    /// Recompose the fan browser's cases around the browse index.
    RebuildFan,
    /// The scraped cover just received belongs to this album.
    CoverArrived(usize),
    /// Scan this folder for music.
    Scan(String),
    /// Look up covers for the albums that have none.
    StartArtScrape,
    /// Ask the user for a music folder.
    PickFolder,
    /// Ask the user for a background image.
    PickBackground,
    /// Forget the background image at this index.
    DropBackground(usize),
    /// Turn the spools one frame in direction `dir`, at wind speed when fast.
    Spin { dir: i8, fast: bool },
    /// Read (and clear) the audio thread's status, then report it.
    PollStatus,
}

/// A message the deck reacts to.
pub enum Message {
    /// A frame tick.
    Tick,
    /// The audio thread's status, read after a tick asked for it.
    StatusPolled(SharedStatus),
    OpenFolder,
    FolderChosen(Option<String>),
    LibraryLoaded { albums: Vec<Album>, skipped: usize },
    ShowRack,
    ShowPlayer,
    LabelClicked,
    AlbumSelected(usize),
    CloseReveal,
    PlayTrack { album: usize, track: usize },
    OpenCase { album: usize, track: usize },
    TogglePlay,
    Stop,
    Next,
    Prev,
    /// Seek to a fraction of the track, in millionths.
    Seek(u32),
    /// Seek by a signed number of milliseconds.
    SeekBy(i64),
    /// Hold-to-wind: +1 forward, -1 back.
    WindStart(i8),
    WindStop,
    ToggleSkipMode,
    BrowseStep(i32),
    CycleSkin,
    /// Turn the album-cover wallpaper behind the deck on or off.
    ToggleWallpaper,
    CycleBackground,
    PickBackground,
    /// A background image the user picked was read; this is its path.
    BackgroundAdded(String),
    /// A background image could not be read; this is why.
    BackgroundFailed(String),
    RemoveBackground,
    /// A scraped cover arrived for this album key.
    ArtLoaded(String),
    Mpris(MprisCmd),
}

/// How long the cassette-load animation plays, in milliseconds.
pub const LOAD_ANIM_MS: u64 = 850;
/// How long the case-open animation plays, in milliseconds.
pub const CASE_ANIM_MS: u64 = 1600;
/// How often a playing deck saves its state, in milliseconds.
pub const SAVE_EVERY_MS: u64 = 5000;
/// How long the spools whirl after a track skip, in milliseconds.
pub const SKIP_ANIM_MS: u64 = 350;
/// How much faster than play speed a wind moves the position.
pub const WIND_RATE: i64 = 12;
/// How many neighbours fan out on each side of the centre case.
pub const FAN_EACH_SIDE: usize = 3;

/// The deck's whole state.
pub struct Deck {
    pub screen: Screen,
    pub library: Vec<Album>,
    pub scanning: bool,
    /// The loaded (album, track), if a tape is in the deck.
    pub current: Option<(usize, usize)>,
    pub position_ms: u64,
    pub playing: bool,
    /// After Stop: Play must reload, not resume.
    pub stopped: bool,
    /// Hold-to-wind in progress: +1 forward, -1 back.
    pub wind: Option<i8>,
    /// Whether playback resumes when the wind key is released.
    pub wind_resume: bool,
    /// FUNCT latched: FF/REW skip tracks instead of winding.
    pub skip_mode: bool,
    /// Spool burst after a track skip: direction and milliseconds left.
    pub skip_anim: Option<(i8, u64)>,
    pub music_dir: Option<String>,
    /// Track path and position (ms) to reload once the library is in.
    pub pending_resume: Option<(String, u64)>,
    pub last_save_ms: u64,
    pub last_tick_ms: u64,
    /// Milliseconds between the last two ticks.
    pub tick_dt_ms: u64,
    /// One-line status or error for the user.
    pub notice: Option<String>,
    /// The ids of the colour skins, in cycling order.
    pub skin_ids: Vec<String>,
    pub skin_idx: usize,
    /// The source of each room background: none for a built-in, else the
    /// path of an image the user added.
    pub bg_sources: Vec<Option<String>>,
    pub bg_idx: usize,
    /// Whether the playing album's cover fills the space behind the deck.
    pub wallpaper: bool,
    /// Which album is centred in the fan browser.
    pub browse_index: usize,
}

/// The deck's state as plain values.
pub struct DeckView {
    pub screen: Screen,
    pub library: Seq<Album>,
    pub scanning: bool,
    pub current: Option<(usize, usize)>,
    pub position_ms: u64,
    pub playing: bool,
    pub stopped: bool,
    pub wind: Option<i8>,
    pub wind_resume: bool,
    pub skip_mode: bool,
    pub skip_anim: Option<(i8, u64)>,
    pub music_dir: Option<Seq<char>>,
    pub pending_resume: Option<(Seq<char>, u64)>,
    pub last_save_ms: u64,
    pub last_tick_ms: u64,
    pub tick_dt_ms: u64,
    pub notice: Option<Seq<char>>,
    pub skin_ids: Seq<Seq<char>>,
    pub skin_idx: usize,
    pub bg_sources: Seq<Option<Seq<char>>>,
    pub bg_idx: usize,
    pub wallpaper: bool,
    pub browse_index: usize,
}

/// A pending resume as plain values.
pub open spec fn resume_view(r: Option<(String, u64)>) -> Option<(Seq<char>, u64)> {
    match r {
        Some((p, ms)) => Some((p@, ms)),
        None => None,
    }
}

/// Strings as character sequences.
pub open spec fn texts(v: Seq<String>) -> Seq<Seq<char>> {
    v.map_values(|s: String| s@)
}

/// Background sources as plain values.
pub open spec fn sources(v: Seq<Option<String>>) -> Seq<Option<Seq<char>>> {
    v.map_values(|o: Option<String>| opt_chars(o))
}

impl View for Deck {
    type V = DeckView;

    open spec fn view(&self) -> DeckView {
        DeckView {
            screen: self.screen,
            library: self.library@,
            scanning: self.scanning,
            current: self.current,
            position_ms: self.position_ms,
            playing: self.playing,
            stopped: self.stopped,
            wind: self.wind,
            wind_resume: self.wind_resume,
            skip_mode: self.skip_mode,
            skip_anim: self.skip_anim,
            music_dir: opt_chars(self.music_dir),
            pending_resume: resume_view(self.pending_resume),
            last_save_ms: self.last_save_ms,
            last_tick_ms: self.last_tick_ms,
            tick_dt_ms: self.tick_dt_ms,
            notice: opt_chars(self.notice),
            skin_ids: texts(self.skin_ids@),
            skin_idx: self.skin_idx,
            bg_sources: sources(self.bg_sources@),
            bg_idx: self.bg_idx,
            wallpaper: self.wallpaper,
            browse_index: self.browse_index,
        }
    }
}

/// Whether album `a` of the library has a track `t`.
pub open spec fn has_track(lib: Seq<Album>, a: int, t: int) -> bool {
    0 <= a < lib.len() && 0 <= t < lib[a].tracks@.len()
}

/// The deck's invariant: a loaded tape exists, the browse index points at an
/// album when there are any, the skin and background indices are in range,
/// and the first background is a built-in one.
pub open spec fn deck_wf(d: DeckView) -> bool {
    &&& (d.current matches Some((a, t)) ==> has_track(d.library, a as int, t as int))
    &&& (d.library.len() > 0 ==> d.browse_index < d.library.len())
    &&& d.skin_idx < d.skin_ids.len()
    &&& d.bg_idx < d.bg_sources.len()
    &&& d.bg_sources[0] is None
}

/// The shelf fits in memory: as many albums, and tracks per album, as a
/// vector can hold.
pub open spec fn deck_sized(d: DeckView) -> bool {
    &&& d.library.len() <= usize::MAX
    &&& forall|i: int| 0 <= i < d.library.len() ==> #[trigger] d.library[i].tracks@.len() <= usize::MAX
}

impl Deck {
    /// The deck's invariant (see `deck_wf`).
    pub open spec fn wf(&self) -> bool {
        deck_wf(self@)
    }
}

/// The loaded track's running time; zero with no tape in the deck.
pub open spec fn duration_ms(d: DeckView) -> u64 {
    match d.current {
        Some((a, t)) => if has_track(d.library, a as int, t as int) {
            d.library[a as int].tracks@[t as int].duration_ms
        } else {
            0
        },
        None => 0,
    }
}

/// Loads track `t` of album `a`, playing from the start, and shows the
/// player; nothing happens when there is no such track.
pub open spec fn load_track(d: DeckView, a: usize, t: usize) -> (DeckView, Seq<Effect>) {
    if has_track(d.library, a as int, t as int) {
        let album = d.library[a as int];
        let tr = album.tracks@[t as int];
        (
            DeckView {
                current: Some((a, t)),
                position_ms: 0,
                playing: true,
                stopped: false,
                notice: None,
                screen: Screen::Player,
                ..d
            },
            seq![
                Effect::Audio(AudioCmd::Load(tr.path)),
                Effect::RenderLabel { song: tr.title, album: album.title },
                Effect::Mpris(MprisUpdate::Metadata {
                    title: tr.title,
                    artist: album.artist,
                    album: album.title,
                    length_ms: tr.duration_ms,
                }),
                Effect::Mpris(MprisUpdate::Playing),
                Effect::SaveState(0),
            ],
        )
    } else {
        (d, Seq::empty())
    }
}

/// Loads a track paused at `pos_ms`, staying on the rack (session resume).
pub open spec fn resume_track(d: DeckView, a: usize, t: usize, pos_ms: u64) -> (DeckView, Seq<Effect>) {
    let (d1, fx) = load_track(d, a, t);
    (
        DeckView { position_ms: pos_ms, playing: false, screen: Screen::Rack, ..d1 },
        fx + seq![
            Effect::Audio(AudioCmd::Pause),
            Effect::Audio(AudioCmd::Seek(pos_ms)),
            Effect::Mpris(MprisUpdate::Paused),
        ],
    )
}

/// The sign of a step, as a spool direction.
pub open spec fn sign(x: i64) -> i8 {
    if x > 0 {
        1
    } else if x < 0 {
        -1i8
    } else {
        0
    }
}

/// Moves `offset` tracks, continuing across album boundaries in shelf
/// order: past the last track of an album comes the next album's first, and
/// past the end of the shelf the deck stops; before the first track of an
/// album comes the previous album's last, and before the very first track
/// that track restarts. The spools whirl briefly in the direction of travel.
pub open spec fn step_track(d: DeckView, offset: i64) -> (DeckView, Seq<Effect>) {
    match d.current {
        None => (d, Seq::empty()),
        Some((a, t)) => {
            let d1 = DeckView { skip_anim: Some((sign(offset), SKIP_ANIM_MS)), ..d };
            let len = d.library[a as int].tracks@.len();
            let next = t + offset;
            if 0 <= next < len {
                load_track(d1, a, next as usize)
            } else if offset > 0 {
                if a + 1 < d.library.len() {
                    load_track(d1, (a + 1) as usize, 0)
                } else {
                    (
                        DeckView { playing: false, stopped: true, position_ms: 0, ..d1 },
                        seq![
                            Effect::Audio(AudioCmd::Stop),
                            Effect::Mpris(MprisUpdate::Stopped),
                        ],
                    )
                }
            } else if a > 0 {
                let prev = (a - 1) as usize;
                let n = d.library[prev as int].tracks@.len();
                load_track(d1, prev, if n == 0 { 0 } else { (n - 1) as usize })
            } else {
                load_track(d1, a, 0)
            }
        },
    }
}

/// `x` held within `lo..=hi`.
pub open spec fn clamp(x: int, lo: int, hi: int) -> int {
    if x < lo {
        lo
    } else if x > hi {
        hi
    } else {
        x
    }
}

/// A tick at `now`: an animation that has run its course loads its track
/// (with the seating click); a wind moves the position at wind speed and
/// whirls the spools; otherwise the audio status is read.
pub open spec fn on_tick(d: DeckView, now: u64) -> (DeckView, Seq<Effect>) {
    let dt: u64 = if now >= d.last_tick_ms { (now - d.last_tick_ms) as u64 } else { 0 };
    let d1 = DeckView { last_tick_ms: now, ..d };
    match d.screen {
        Screen::Loading { album, track, started_ms } => {
            if now >= started_ms && now - started_ms >= LOAD_ANIM_MS {
                let (d2, fx) = load_track(d1, album, track);
                (d2, seq![Effect::Audio(AudioCmd::Sfx(Sfx::TapeSeat))] + fx)
            } else {
                (d1, Seq::empty())
            }
        },
        Screen::CaseOpen { album, track, started_ms } => {
            if now >= started_ms && now - started_ms >= CASE_ANIM_MS {
                let (d2, fx) = load_track(d1, album, track);
                (d2, seq![Effect::Audio(AudioCmd::Sfx(Sfx::TapeSeat))] + fx)
            } else {
                (d1, Seq::empty())
            }
        },
        _ => match d.wind {
            Some(dir) => {
                let total = duration_ms(d);
                if total > 0 {
                    let target = clamp(d.position_ms + dt * WIND_RATE * dir, 0, total as int);
                    (
                        DeckView { position_ms: target as u64, tick_dt_ms: dt, ..d1 },
                        seq![Effect::Spin { dir, fast: true }],
                    )
                } else {
                    (DeckView { tick_dt_ms: dt, ..d1 }, Seq::empty())
                }
            },
            None => (DeckView { tick_dt_ms: dt, ..d1 }, seq![Effect::PollStatus]),
        },
    }
}

/// The audio status `st` arrived: the position and play state follow it, an
/// error becomes the notice; a finished track clunks and advances; otherwise
/// the spools turn (a skip burst first), and a playing deck saves its state
/// every five seconds.
pub open spec fn on_status(d: DeckView, st: SharedStatus) -> (DeckView, Seq<Effect>) {
    let d1 = DeckView {
        position_ms: st.position_ms,
        playing: st.playing,
        notice: match st.error {
            Some(e) => Some(e@),
            None => d.notice,
        },
        ..d
    };
    if st.track_finished {
        let (d2, fx) = step_track(d1, 1);
        (d2, seq![Effect::Audio(AudioCmd::Sfx(Sfx::EndClack))] + fx)
    } else {
        let (d2, fx) = match d1.skip_anim {
            Some((dir, left)) => (
                DeckView {
                    skip_anim: if left > d1.tick_dt_ms {
                        Some((dir, (left - d1.tick_dt_ms) as u64))
                    } else {
                        None
                    },
                    ..d1
                },
                seq![Effect::Spin { dir, fast: true }],
            ),
            None => if d1.playing {
                (d1, seq![Effect::Spin { dir: 1, fast: false }])
            } else {
                (d1, Seq::empty())
            },
        };
        if d2.playing && d2.last_tick_ms >= d2.last_save_ms && d2.last_tick_ms - d2.last_save_ms
            >= SAVE_EVERY_MS {
            (
                DeckView { last_save_ms: d2.last_tick_ms, ..d2 },
                fx.push(Effect::SaveState(d2.position_ms)),
            )
        } else {
            (d2, fx)
        }
    }
}

/// The notice after a scan that skipped `n` unreadable files.
pub open spec fn skipped_notice(n: usize) -> Option<Seq<char>> {
    if n > 0 {
        Some("Skipped "@ + decimal(n as nat) + " unreadable file(s) during scan"@)
    } else {
        None
    }
}

/// The notice when the user tries to remove a built-in background.
pub open spec fn builtin_notice() -> Seq<char> {
    "That's a built-in background — it can't be removed. Cycle to an image you added with ＋ Image to remove it."@
}

/// Track `t` of album `a` is where `path` is first found: the first album
/// holding it, and its first such track (paths compared as `Path`s are).
pub open spec fn found_at(lib: Seq<Album>, path: Seq<char>, a: int, t: int) -> bool {
    &&& has_track(lib, a, t)
    &&& path_eq(lib[a].tracks@[t].path@, path)
    &&& forall|j: int| 0 <= j < t ==> !path_eq(lib[a].tracks@[j].path@, path)
    &&& forall|b: int| 0 <= b < a ==> !album_has_path(lib, b, path)
}

/// Where `path` is first found on the shelf, if anywhere.
pub open spec fn track_for_path(lib: Seq<Album>, path: Seq<char>) -> Option<(int, int)> {
    if exists|a: int, t: int| found_at(lib, path, a, t) {
        Some(choose|a: int, t: int| found_at(lib, path, a, t))
    } else {
        None
    }
}

/// A new library: everything stops, the rack shows its first album, the
/// last session's tape is reloaded paused if it is on the shelf, the fan is
/// rebuilt and covers are looked up.
pub open spec fn on_library(d: DeckView, albums: Seq<Album>, skipped: usize) -> (DeckView, Seq<Effect>) {
    let d1 = DeckView {
        scanning: false,
        library: albums,
        current: None,
        playing: false,
        stopped: false,
        screen: Screen::Rack,
        browse_index: 0,
        notice: skipped_notice(skipped),
        pending_resume: None,
        ..d
    };
    let fx1 = seq![Effect::Audio(AudioCmd::Stop), Effect::ClearLabel];
    let (d2, fx2) = match d.pending_resume {
        Some((path, pos)) => match track_for_path(albums, path) {
            Some((a, t)) => resume_track(d1, a as usize, t as usize, pos),
            None => (d1, Seq::empty()),
        },
        None => (d1, Seq::empty()),
    };
    (d2, fx1 + fx2 + seq![Effect::RebuildFan, Effect::StartArtScrape])
}

/// Whether album `idx` shows in the fan: within `FAN_EACH_SIDE` of the
/// browse index, wrapping around the ends of the shelf.
pub open spec fn in_fan(browse: int, idx: int, n: int) -> bool {
    exists|off: int| -(FAN_EACH_SIDE as int) <= off <= FAN_EACH_SIDE as int && #[trigger] ((browse + off) % n) == idx
}

/// The index of the first album whose key is `key`.
pub open spec fn album_for_key(lib: Seq<Album>, key: Seq<char>, i: int) -> bool {
    0 <= i < lib.len() && lib[i].artist@ + seq!['\t'] + lib[i].title@ == key && forall|j: int|
        0 <= j < i ==> lib[j].artist@ + seq!['\t'] + lib[j].title@ != key
}

/// What a media key asks of the deck, if anything: play/pause toggles, play
/// and pause toggle only when that changes something, the rest map one to one.
pub open spec fn mpris_request(d: DeckView, cmd: MprisCmd) -> Option<Message> {
    match cmd {
        MprisCmd::PlayPause => Some(Message::TogglePlay),
        MprisCmd::Play => if !d.playing {
            Some(Message::TogglePlay)
        } else {
            None
        },
        MprisCmd::Pause => if d.playing {
            Some(Message::TogglePlay)
        } else {
            None
        },
        MprisCmd::Stop => Some(Message::Stop),
        MprisCmd::Next => Some(Message::Next),
        MprisCmd::Prev => Some(Message::Prev),
    }
}

/// What the deck does with message `msg` at time `now` (milliseconds): its
/// next state and the effects to carry out, in order.
pub open spec fn deck_next(d: DeckView, msg: Message, now: u64) -> (DeckView, Seq<Effect>) {
    match msg {
        Message::Mpris(cmd) => match mpris_request(d, cmd) {
            Some(m) => deck_step(d, m, now),
            None => (d, Seq::empty()),
        },
        _ => deck_step(d, msg, now),
    }
}

/// `deck_next` for every message but a media key.
#[verifier::opaque]
pub open spec fn deck_step(d: DeckView, msg: Message, now: u64) -> (DeckView, Seq<Effect>) {
    let key = Effect::Audio(AudioCmd::Sfx(Sfx::KeyPress));
    match msg {
        Message::Tick => on_tick(d, now),
        Message::StatusPolled(st) => on_status(d, st),
        Message::OpenFolder => (d, seq![Effect::PickFolder]),
        Message::FolderChosen(Some(dir)) => (
            DeckView { music_dir: Some(dir@), scanning: true, ..d },
            seq![Effect::SaveState(d.position_ms), Effect::Scan(dir)],
        ),
        Message::FolderChosen(None) => (d, Seq::empty()),
        Message::LibraryLoaded { albums, skipped } => on_library(d, albums@, skipped),
        Message::ArtLoaded(k) => {
            let n = d.library.len();
            if exists|i: int| album_for_key(d.library, k@, i) {
                let i = choose|i: int| album_for_key(d.library, k@, i);
                if in_fan(d.browse_index as int, i, n as int) {
                    (d, seq![Effect::CoverArrived(i as usize), Effect::RebuildFan])
                } else {
                    (d, seq![Effect::CoverArrived(i as usize)])
                }
            } else {
                (d, Seq::empty())
            }
        },
        Message::ShowRack => match d.current {
            Some((a, _)) => if a < d.library.len() {
                (DeckView { browse_index: a, screen: Screen::Rack, ..d }, seq![Effect::RebuildFan])
            } else {
                (DeckView { screen: Screen::Rack, ..d }, Seq::empty())
            },
            None => (DeckView { screen: Screen::Rack, ..d }, Seq::empty()),
        },
        Message::ShowPlayer => (DeckView { screen: Screen::Player, ..d }, Seq::empty()),
        Message::LabelClicked => match d.current {
            Some((a, _)) => if a < d.library.len() {
                (DeckView { screen: Screen::Reveal(a), ..d }, Seq::empty())
            } else {
                (d, Seq::empty())
            },
            None => (d, Seq::empty()),
        },
        Message::AlbumSelected(i) => (DeckView { screen: Screen::Reveal(i), ..d }, Seq::empty()),
        Message::CloseReveal => (DeckView { screen: Screen::Rack, ..d }, Seq::empty()),
        Message::PlayTrack { album, track } => (
            DeckView { screen: Screen::Loading { album, track, started_ms: now }, ..d },
            Seq::empty(),
        ),
        Message::OpenCase { album, track } => (
            DeckView { screen: Screen::CaseOpen { album, track, started_ms: now }, ..d },
            Seq::empty(),
        ),
        Message::TogglePlay => match d.current {
            Some((a, t)) => if d.stopped {
                let (d1, fx) = load_track(d, a, t);
                (d1, seq![key] + fx)
            } else if d.playing {
                (
                    DeckView { playing: false, ..d },
                    seq![
                        key,
                        Effect::Audio(AudioCmd::Pause),
                        Effect::Mpris(MprisUpdate::Paused),
                        Effect::SaveState(d.position_ms),
                    ],
                )
            } else {
                (
                    DeckView { playing: true, ..d },
                    seq![
                        key,
                        Effect::Audio(AudioCmd::Resume),
                        Effect::Mpris(MprisUpdate::Playing),
                        Effect::SaveState(d.position_ms),
                    ],
                )
            },
            None => (d, seq![key]),
        },
        Message::Stop => (
            DeckView { playing: false, stopped: true, position_ms: 0, ..d },
            seq![
                key,
                Effect::Audio(AudioCmd::Stop),
                Effect::Mpris(MprisUpdate::Stopped),
                Effect::SaveState(0),
            ],
        ),
        Message::Next => step_track(d, 1),
        Message::Prev => step_track(d, -1i64),
        Message::Seek(ppm) => {
            let total = duration_ms(d);
            if total > 0 {
                let f: int = if ppm > 1_000_000 { 1_000_000 } else { ppm as int };
                let target = (total * f / 1_000_000) as u64;
                (DeckView { position_ms: target, ..d }, seq![Effect::Audio(AudioCmd::Seek(target))])
            } else {
                (d, Seq::empty())
            }
        },
        Message::SeekBy(delta) => {
            let total = duration_ms(d);
            if total > 0 && !d.stopped {
                let target = clamp(d.position_ms + delta, 0, total as int) as u64;
                (DeckView { position_ms: target, ..d }, seq![Effect::Audio(AudioCmd::Seek(target))])
            } else {
                (d, Seq::empty())
            }
        },
        Message::WindStart(dir) => if d.current is Some && !d.stopped && d.wind is None {
            (
                DeckView { wind: Some(dir), wind_resume: d.playing, ..d },
                if d.playing {
                    seq![Effect::Audio(AudioCmd::Pause), key, Effect::Audio(AudioCmd::Wind(true))]
                } else {
                    seq![key, Effect::Audio(AudioCmd::Wind(true))]
                },
            )
        } else {
            (d, Seq::empty())
        },
        Message::ToggleSkipMode => {
            let fx = seq![key, Effect::Audio(AudioCmd::Wind(false))];
            if d.wind is Some {
                if d.wind_resume {
                    (
                        DeckView { wind: None, playing: true, skip_mode: !d.skip_mode, ..d },
                        fx + seq![
                            Effect::Audio(AudioCmd::Seek(d.position_ms)),
                            Effect::Audio(AudioCmd::Resume),
                        ],
                    )
                } else {
                    (
                        DeckView { wind: None, skip_mode: !d.skip_mode, ..d },
                        fx + seq![Effect::Audio(AudioCmd::Seek(d.position_ms))],
                    )
                }
            } else {
                (DeckView { skip_mode: !d.skip_mode, ..d }, fx)
            }
        },
        Message::WindStop => {
            let fx = seq![Effect::Audio(AudioCmd::Wind(false))];
            if d.wind is Some {
                if d.wind_resume {
                    (
                        DeckView { wind: None, playing: true, ..d },
                        fx + seq![
                            Effect::Audio(AudioCmd::Seek(d.position_ms)),
                            Effect::Audio(AudioCmd::Resume),
                            Effect::Mpris(MprisUpdate::Playing),
                            Effect::SaveState(d.position_ms),
                        ],
                    )
                } else {
                    (
                        DeckView { wind: None, ..d },
                        fx + seq![
                            Effect::Audio(AudioCmd::Seek(d.position_ms)),
                            Effect::SaveState(d.position_ms),
                        ],
                    )
                }
            } else {
                (d, fx)
            }
        },
        Message::CycleSkin => {
            let d1 = DeckView { skin_idx: ((d.skin_idx + 1) % d.skin_ids.len() as int) as usize, ..d };
            match d.current {
                Some((a, t)) => if has_track(d.library, a as int, t as int) {
                    (
                        d1,
                        seq![
                            Effect::RenderLabel {
                                song: d.library[a as int].tracks@[t as int].title,
                                album: d.library[a as int].title,
                            },
                            Effect::SaveState(d.position_ms),
                        ],
                    )
                } else {
                    (d1, seq![Effect::SaveState(d.position_ms)])
                },
                None => (d1, seq![Effect::SaveState(d.position_ms)]),
            }
        },
        Message::ToggleWallpaper => (
            DeckView { wallpaper: !d.wallpaper, ..d },
            seq![Effect::SaveState(d.position_ms)],
        ),
        Message::CycleBackground => if d.bg_sources.len() > 0 {
            (
                DeckView { bg_idx: ((d.bg_idx + 1) % d.bg_sources.len() as int) as usize, ..d },
                seq![Effect::SaveState(d.position_ms)],
            )
        } else {
            (d, Seq::empty())
        },
        Message::PickBackground => (d, seq![Effect::PickBackground]),
        Message::BackgroundAdded(path) => (
            DeckView {
                bg_sources: d.bg_sources.push(Some(path@)),
                bg_idx: d.bg_sources.len() as usize,
                ..d
            },
            seq![Effect::SaveState(d.position_ms)],
        ),
        Message::BackgroundFailed(why) => (
            DeckView { notice: Some("Couldn't load background: "@ + why@), ..d },
            Seq::empty(),
        ),
        Message::RemoveBackground => if d.bg_idx < d.bg_sources.len() && d.bg_sources[d.bg_idx as int] is Some {
            let rest = d.bg_sources.remove(d.bg_idx as int);
            (
                DeckView {
                    bg_sources: rest,
                    bg_idx: if d.bg_idx >= rest.len() {
                        if rest.len() == 0 { 0 } else { (rest.len() - 1) as usize }
                    } else {
                        d.bg_idx
                    },
                    ..d
                },
                seq![Effect::DropBackground(d.bg_idx), Effect::SaveState(d.position_ms)],
            )
        } else {
            (DeckView { notice: Some(builtin_notice()), ..d }, Seq::empty())
        },
        Message::BrowseStep(delta) => if d.screen == Screen::Rack && d.library.len() > 0 {
            (
                DeckView {
                    browse_index: ((d.browse_index + delta) % (d.library.len() as int)) as usize,
                    ..d
                },
                seq![Effect::RebuildFan],
            )
        } else {
            (d, Seq::empty())
        },
        Message::Mpris(_) => (d, Seq::empty()),
    }
}

/// `(base + delta)` wrapped onto `0..n`, never negative.
pub fn wrap_index(base: usize, delta: i64, n: usize) -> (r: usize)
    requires
        n > 0,
    ensures
        r as int == (base + delta) % (n as int),
        r < n,
{
    let nn = n as u128;
    if delta >= 0 {
        let x = base as u128 + delta as u128;
        (x % nn) as usize
    } else {
        let m: u128 = (-(delta as i128)) as u128;
        let k = m % nn;
        let x = base as u128 + nn - k;
        proof {
            let q = m as int / nn as int;
            vstd::arithmetic::div_mod::lemma_fundamental_div_mod(m as int, nn as int);
            assert(m as int == -delta);
            assert(base + delta == nn as int * (-(q + 1)) + (base + nn - k)) by (nonlinear_arith)
                requires
                    m as int == nn as int * q + k as int,
                    m as int == -delta,
            ;
            vstd::arithmetic::div_mod::lemma_mod_multiples_vanish(-(q + 1), base + nn - k, nn as int);
        }
        (x % nn) as usize
    }
}

fn sign_of(x: i64) -> (s: i8)
    ensures
        s == sign(x),
{
    if x > 0 {
        1
    } else if x < 0 {
        -1
    } else {
        0
    }
}

fn skipped_text(n: usize) -> (out: Option<String>)
    ensures
        opt_chars(out) == skipped_notice(n),
{
    if n > 0 {
        let mut s = "Skipped ".to_owned();
        push_decimal(&mut s, n as u64);
        s.append(" unreadable file(s) during scan");
        Some(s)
    } else {
        None
    }
}

/// The first album whose key (artist, tab, title) is `key`.
pub fn album_index_for_key(lib: &Vec<Album>, key: &String) -> (out: Option<usize>)
    ensures
        match out {
            Some(i) => album_for_key(lib@, key@, i as int),
            None => forall|i: int| 0 <= i < lib@.len() ==> lib@[i].artist@ + seq!['\t'] + lib@[i].title@ != key@,
        },
{
    let mut i: usize = 0;
    while i < lib.len()
        invariant
            i <= lib@.len(),
            forall|j: int| 0 <= j < i ==> lib@[j].artist@ + seq!['\t'] + lib@[j].title@ != key@,
        decreases lib@.len() - i,
    {
        let k = album_art_key(&lib[i]);
        if k == *key {
            return Some(i);
        }
        i = i + 1;
    }
    None
}

/// Whether album `idx` shows in the fan around `browse` (see `in_fan`).
pub fn fan_shows(browse: usize, idx: usize, n: usize) -> (b: bool)
    requires
        n > 0,
    ensures
        b == in_fan(browse as int, idx as int, n as int),
{
    let mut off: i64 = -3;
    while off <= 3
        invariant
            -3 <= off <= 4,
            n > 0,
            forall|o: int| -3 <= o < off ==> #[trigger] ((browse + o) % (n as int)) != idx,
        decreases 4 - off,
    {
        if wrap_index(browse, off, n) == idx {
            assert((browse + off) % (n as int) == idx);
            return true;
        }
        off = off + 1;
    }
    assert(!in_fan(browse as int, idx as int, n as int)) by {
        if in_fan(browse as int, idx as int, n as int) {
            let o = choose|o: int| -3 <= o <= 3 && #[trigger] ((browse + o) % (n as int)) == idx;
            assert((browse + o) % (n as int) != idx);
        }
    }
    false
}

proof fn lemma_found_unique(lib: Seq<Album>, path: Seq<char>, a: int, t: int, b: int, u: int)
    requires
        found_at(lib, path, a, t),
        found_at(lib, path, b, u),
    ensures
        a == b && t == u,
{
    assert(album_has_path(lib, a, path)) by {
        assert(crate::library::paths_of(lib[a])[t] == lib[a].tracks@[t].path@);
    }
    assert(album_has_path(lib, b, path)) by {
        assert(crate::library::paths_of(lib[b])[u] == lib[b].tracks@[u].path@);
    }
}

impl Deck {
    fn load_track_in(&mut self, a: usize, t: usize, fx: &mut Vec<Effect>)
        ensures
            final(self)@ == load_track(old(self)@, a, t).0,
            final(fx)@ == old(fx)@ + load_track(old(self)@, a, t).1,
            old(self).wf() ==> final(self).wf(),
    {
        if a < self.library.len() && t < self.library[a].tracks.len() {
            let ghost f0 = fx@;
            let album = &self.library[a];
            let tr = &album.tracks[t];
            fx.push(Effect::Audio(AudioCmd::Load(tr.path.clone())));
            fx.push(Effect::RenderLabel { song: tr.title.clone(), album: album.title.clone() });
            fx.push(
                Effect::Mpris(
                    MprisUpdate::Metadata {
                        title: tr.title.clone(),
                        artist: album.artist.clone(),
                        album: album.title.clone(),
                        length_ms: tr.duration_ms,
                    },
                ),
            );
            fx.push(Effect::Mpris(MprisUpdate::Playing));
            fx.push(Effect::SaveState(0));
            assert(fx@ =~= f0 + load_track(old(self)@, a, t).1);
            self.current = Some((a, t));
            self.position_ms = 0;
            self.playing = true;
            self.stopped = false;
            self.notice = None;
            self.screen = Screen::Player;
        } else {
            assert(fx@ =~= old(fx)@ + Seq::<Effect>::empty());
        }
    }

    fn resume_track_in(&mut self, a: usize, t: usize, pos_ms: u64, fx: &mut Vec<Effect>)
        ensures
            final(self)@ == resume_track(old(self)@, a, t, pos_ms).0,
            final(fx)@ == old(fx)@ + resume_track(old(self)@, a, t, pos_ms).1,
            old(self).wf() ==> final(self).wf(),
    {
        let ghost f0 = fx@;
        self.load_track_in(a, t, fx);
        let ghost f1 = fx@;
        fx.push(Effect::Audio(AudioCmd::Pause));
        fx.push(Effect::Audio(AudioCmd::Seek(pos_ms)));
        fx.push(Effect::Mpris(MprisUpdate::Paused));
        self.position_ms = pos_ms;
        self.playing = false;
        self.screen = Screen::Rack;
        assert(fx@ =~= f0 + resume_track(old(self)@, a, t, pos_ms).1);
    }

    fn step_track_in(&mut self, offset: i64, fx: &mut Vec<Effect>)
        requires
            old(self).wf(),
        ensures
            final(self)@ == step_track(old(self)@, offset).0,
            final(fx)@ == old(fx)@ + step_track(old(self)@, offset).1,
            final(self).wf(),
    {
        match self.current {
            None => {
                assert(fx@ =~= old(fx)@ + Seq::<Effect>::empty());
            },
            Some((a, t)) => {
                assert(has_track(self.library@, a as int, t as int));
                let albums = self.library.len();
                assert(a < albums);
                self.skip_anim = Some((sign_of(offset), SKIP_ANIM_MS));
                let len = self.library[a].tracks.len();
                let next: i128 = t as i128 + offset as i128;
                if 0 <= next && next < len as i128 {
                    self.load_track_in(a, next as usize, fx);
                } else if offset > 0 {
                    if a + 1 < albums {
                        self.load_track_in(a + 1, 0, fx);
                    } else {
                        let ghost f0 = fx@;
                        fx.push(Effect::Audio(AudioCmd::Stop));
                        fx.push(Effect::Mpris(MprisUpdate::Stopped));
                        self.playing = false;
                        self.stopped = true;
                        self.position_ms = 0;
                        assert(fx@ =~= f0 + step_track(old(self)@, offset).1);
                    }
                } else if a > 0 {
                    let prev = a - 1;
                    let n = self.library[prev].tracks.len();
                    let last = if n == 0 { 0 } else { n - 1 };
                    self.load_track_in(prev, last, fx);
                } else {
                    self.load_track_in(a, 0, fx);
                }
            },
        }
    }
}

impl Deck {
    fn on_tick_in(&mut self, now: u64, fx: &mut Vec<Effect>)
        requires
            old(self).wf(),
        ensures
            final(self)@ == on_tick(old(self)@, now).0,
            final(fx)@ == old(fx)@ + on_tick(old(self)@, now).1,
            final(self).wf(),
    {
        let dt: u64 = now.saturating_sub(self.last_tick_ms);
        self.last_tick_ms = now;
        match self.screen {
            Screen::Loading { album, track, started_ms } => {
                if now >= started_ms && now - started_ms >= LOAD_ANIM_MS {
                    let ghost f0 = fx@;
                    fx.push(Effect::Audio(AudioCmd::Sfx(Sfx::TapeSeat)));
                    let ghost f1 = fx@;
                    self.load_track_in(album, track, fx);
                    assert(fx@ =~= f0 + on_tick(old(self)@, now).1);
                } else {
                    assert(fx@ =~= old(fx)@ + Seq::<Effect>::empty());
                }
            },
            Screen::CaseOpen { album, track, started_ms } => {
                if now >= started_ms && now - started_ms >= CASE_ANIM_MS {
                    let ghost f0 = fx@;
                    fx.push(Effect::Audio(AudioCmd::Sfx(Sfx::TapeSeat)));
                    self.load_track_in(album, track, fx);
                    assert(fx@ =~= f0 + on_tick(old(self)@, now).1);
                } else {
                    assert(fx@ =~= old(fx)@ + Seq::<Effect>::empty());
                }
            },
            _ => match self.wind {
                Some(dir) => {
                    self.tick_dt_ms = dt;
                    let total = self.duration();
                    if total > 0 {
                        let speed: i128 = (dt as i128) * (WIND_RATE as i128);
                        assert(-0x1_0000_0000_0000_0000_0000 < speed * dir < 0x1_0000_0000_0000_0000_0000)
                            by (nonlinear_arith)
                            requires
                                0 <= speed <= 12 * 0xffff_ffff_ffff_ffff,
                                -128 <= dir <= 127,
                        ;
                        let travel: i128 = speed * (dir as i128);
                        let raw: i128 = self.position_ms as i128 + travel;
                        let target: i128 = if raw < 0 {
                            0
                        } else if raw > total as i128 {
                            total as i128
                        } else {
                            raw
                        };
                        self.position_ms = target as u64;
                        fx.push(Effect::Spin { dir, fast: true });
                        assert(fx@ =~= old(fx)@ + on_tick(old(self)@, now).1);
                    } else {
                        assert(fx@ =~= old(fx)@ + Seq::<Effect>::empty());
                    }
                },
                None => {
                    self.tick_dt_ms = dt;
                    fx.push(Effect::PollStatus);
                    assert(fx@ =~= old(fx)@ + on_tick(old(self)@, now).1);
                },
            },
        }
    }

    /// The loaded track's running time; zero with no tape in the deck.
    pub fn duration(&self) -> (ms: u64)
        ensures
            ms == duration_ms(self@),
    {
        match self.current {
            Some((a, t)) => if a < self.library.len() && t < self.library[a].tracks.len() {
                self.library[a].tracks[t].duration_ms
            } else {
                0
            },
            None => 0,
        }
    }

    #[verifier::rlimit(40)]
    #[verifier::spinoff_prover]
    fn on_status_in(&mut self, st: SharedStatus, fx: &mut Vec<Effect>)
        requires
            old(self).wf(),
        ensures
            final(self)@ == on_status(old(self)@, st).0,
            final(fx)@ == old(fx)@ + on_status(old(self)@, st).1,
            final(self).wf(),
    {
        let ghost st0 = st;
        self.position_ms = st.position_ms;
        self.playing = st.playing;
        match st.error {
            Some(e) => {
                self.notice = Some(e);
            },
            None => {},
        }
        assert(self.wf());
        if st.track_finished {
            let ghost f0 = fx@;
            fx.push(Effect::Audio(AudioCmd::Sfx(Sfx::EndClack)));
            self.step_track_in(1, fx);
            assert(fx@ =~= f0 + on_status(old(self)@, st0).1);
        } else {
            let ghost f0 = fx@;
            match self.skip_anim {
                Some((dir, left)) => {
                    self.skip_anim = if left > self.tick_dt_ms {
                        Some((dir, left - self.tick_dt_ms))
                    } else {
                        None
                    };
                    fx.push(Effect::Spin { dir, fast: true });
                },
                None => {
                    if self.playing {
                        fx.push(Effect::Spin { dir: 1, fast: false });
                    }
                },
            }
            if self.playing && self.last_tick_ms >= self.last_save_ms && self.last_tick_ms
                - self.last_save_ms >= SAVE_EVERY_MS {
                self.last_save_ms = self.last_tick_ms;
                fx.push(Effect::SaveState(self.position_ms));
            }
            assert(fx@ =~= f0 + on_status(old(self)@, st0).1);
        }
    }
}

impl Deck {
    fn on_library_in(&mut self, albums: Vec<Album>, skipped: usize, fx: &mut Vec<Effect>)
        requires
            old(self).wf(),
        ensures
            final(self)@ == on_library(old(self)@, albums@, skipped).0,
            final(fx)@ == old(fx)@ + on_library(old(self)@, albums@, skipped).1,
            final(self).wf(),
    {
        let ghost d0 = self@;
        let ghost f0 = fx@;
        let ghost lib = albums@;
        self.scanning = false;
        self.library = albums;
        fx.push(Effect::Audio(AudioCmd::Stop));
        self.current = None;
        fx.push(Effect::ClearLabel);
        self.playing = false;
        self.stopped = false;
        self.screen = Screen::Rack;
        self.browse_index = 0;
        self.notice = skipped_text(skipped);
        let pending = self.pending_resume.take();
        assert(self.wf());
        match pending {
            Some((path, pos)) => {
                match find_track(&self.library, path.as_str()) {
                    Some((a, t)) => {
                        proof {
                            assert(found_at(lib, path@, a as int, t as int));
                            let (b, u) = choose|b: int, u: int| found_at(lib, path@, b, u);
                            lemma_found_unique(lib, path@, a as int, t as int, b, u);
                        }
                        self.resume_track_in(a, t, pos, fx);
                    },
                    None => {
                        assert(!exists|b: int, u: int| found_at(lib, path@, b, u)) by {
                            if exists|b: int, u: int| found_at(lib, path@, b, u) {
                                let (b, u) = choose|b: int, u: int| found_at(lib, path@, b, u);
                                assert(crate::library::paths_of(lib[b])[u] == lib[b].tracks@[u].path@);
                                assert(album_has_path(lib, b, path@));
                            }
                        }
                    },
                }
            },
            None => {},
        }
        fx.push(Effect::RebuildFan);
        fx.push(Effect::StartArtScrape);
        assert(fx@ =~= f0 + on_library(d0, lib, skipped).1);
    }

    /// What a media key asks of the deck, if anything (see `mpris_request`).
    pub fn mpris_message(&self, cmd: MprisCmd) -> (m: Option<Message>)
        ensures
            m == mpris_request(self@, cmd),
    {
        match cmd {
            MprisCmd::PlayPause => Some(Message::TogglePlay),
            MprisCmd::Play => if !self.playing {
                Some(Message::TogglePlay)
            } else {
                None
            },
            MprisCmd::Pause => if self.playing {
                Some(Message::TogglePlay)
            } else {
                None
            },
            MprisCmd::Stop => Some(Message::Stop),
            MprisCmd::Next => Some(Message::Next),
            MprisCmd::Prev => Some(Message::Prev),
        }
    }
}

impl Deck {
    fn tick_in(&mut self, now: u64, fx: &mut Vec<Effect>)
        requires
            old(self).wf(),
            old(fx)@.len() == 0,
        ensures
            final(self)@ == deck_step(old(self)@, Message::Tick, now).0,
            final(fx)@ == deck_step(old(self)@, Message::Tick, now).1,
            final(self).wf(),
    {
        let ghost d0 = self@;
        let ghost m0 = Message::Tick;
        proof {
            reveal(deck_step);
        }
        self.on_tick_in(now, fx);
        assert(fx@ =~= deck_step(d0, m0, now).1);
    }

    fn status_polled_in(&mut self, st: SharedStatus, now: u64, fx: &mut Vec<Effect>)
        requires
            old(self).wf(),
            old(fx)@.len() == 0,
        ensures
            final(self)@ == deck_step(old(self)@, Message::StatusPolled(st), now).0,
            final(fx)@ == deck_step(old(self)@, Message::StatusPolled(st), now).1,
            final(self).wf(),
    {
        let ghost d0 = self@;
        let ghost m0 = Message::StatusPolled(st);
        proof {
            reveal(deck_step);
        }
        self.on_status_in(st, fx);
        assert(fx@ =~= deck_step(d0, m0, now).1);
    }

    fn open_folder_in(&mut self, now: u64, fx: &mut Vec<Effect>)
        requires
            old(self).wf(),
            old(fx)@.len() == 0,
        ensures
            final(self)@ == deck_step(old(self)@, Message::OpenFolder, now).0,
            final(fx)@ == deck_step(old(self)@, Message::OpenFolder, now).1,
            final(self).wf(),
    {
        let ghost d0 = self@;
        let ghost m0 = Message::OpenFolder;
        proof {
            reveal(deck_step);
        }
        fx.push(Effect::PickFolder);
        assert(fx@ =~= deck_step(d0, m0, now).1);
    }

    fn folder_chosen_in(&mut self, dir: String, now: u64, fx: &mut Vec<Effect>)
        requires
            old(self).wf(),
            old(fx)@.len() == 0,
        ensures
            final(self)@ == deck_step(old(self)@, Message::FolderChosen(Some(dir)), now).0,
            final(fx)@ == deck_step(old(self)@, Message::FolderChosen(Some(dir)), now).1,
            final(self).wf(),
    {
        let ghost d0 = self@;
        let ghost m0 = Message::FolderChosen(Some(dir));
        proof {
            reveal(deck_step);
        }
        fx.push(Effect::SaveState(self.position_ms));
        self.music_dir = Some(dir.clone());
        self.scanning = true;
        fx.push(Effect::Scan(dir));
        assert(fx@ =~= deck_step(d0, m0, now).1);
    }

    fn library_loaded_in(&mut self, albums: Vec<Album>, skipped: usize, now: u64, fx: &mut Vec<Effect>)
        requires
            old(self).wf(),
            old(fx)@.len() == 0,
        ensures
            final(self)@ == deck_step(old(self)@, Message::LibraryLoaded { albums, skipped }, now).0,
            final(fx)@ == deck_step(old(self)@, Message::LibraryLoaded { albums, skipped }, now).1,
            final(self).wf(),
    {
        let ghost d0 = self@;
        let ghost m0 = Message::LibraryLoaded { albums, skipped };
        proof {
            reveal(deck_step);
        }
        self.on_library_in(albums, skipped, fx);
        assert(fx@ =~= deck_step(d0, m0, now).1);
    }

    fn art_loaded_in(&mut self, k: String, now: u64, fx: &mut Vec<Effect>)
        requires
            old(self).wf(),
            old(fx)@.len() == 0,
        ensures
            final(self)@ == deck_step(old(self)@, Message::ArtLoaded(k), now).0,
            final(fx)@ == deck_step(old(self)@, Message::ArtLoaded(k), now).1,
            final(self).wf(),
    {
        let ghost d0 = self@;
        let ghost m0 = Message::ArtLoaded(k);
        proof {
            reveal(deck_step);
        }
        match album_index_for_key(&self.library, &k) {
            Some(i) => {
                proof {
                    let j = choose|j: int| album_for_key(d0.library, k@, j);
                    assert(j == i as int) by {
                        if j < i {
                            assert(d0.library[j].artist@ + seq!['\t'] + d0.library[j].title@ != k@);
                        } else if i < j {
                            assert(d0.library[i as int].artist@ + seq!['\t'] + d0.library[i as int].title@ != k@);
                        }
                    }
                }
                fx.push(Effect::CoverArrived(i));
                if fan_shows(self.browse_index, i, self.library.len()) {
                    fx.push(Effect::RebuildFan);
                }
                assert(fx@ =~= deck_step(d0, m0, now).1);
            },
            None => {
                assert(!exists|j: int| album_for_key(d0.library, k@, j));
            },
        }
    }

    fn show_rack_in(&mut self, now: u64, fx: &mut Vec<Effect>)
        requires
            old(self).wf(),
            old(fx)@.len() == 0,
        ensures
            final(self)@ == deck_step(old(self)@, Message::ShowRack, now).0,
            final(fx)@ == deck_step(old(self)@, Message::ShowRack, now).1,
            final(self).wf(),
    {
        let ghost d0 = self@;
        let ghost m0 = Message::ShowRack;
        proof {
            reveal(deck_step);
        }
        match self.current {
            Some((a, _)) => {
                if a < self.library.len() {
                    self.browse_index = a;
                    fx.push(Effect::RebuildFan);
                }
            },
            None => {},
        }
        self.screen = Screen::Rack;
        assert(fx@ =~= deck_step(d0, m0, now).1);
    }

    fn show_player_in(&mut self, now: u64, fx: &mut Vec<Effect>)
        requires
            old(self).wf(),
            old(fx)@.len() == 0,
        ensures
            final(self)@ == deck_step(old(self)@, Message::ShowPlayer, now).0,
            final(fx)@ == deck_step(old(self)@, Message::ShowPlayer, now).1,
            final(self).wf(),
    {
        let ghost d0 = self@;
        let ghost m0 = Message::ShowPlayer;
        proof {
            reveal(deck_step);
        }
        self.screen = Screen::Player;
    }

    fn label_clicked_in(&mut self, now: u64, fx: &mut Vec<Effect>)
        requires
            old(self).wf(),
            old(fx)@.len() == 0,
        ensures
            final(self)@ == deck_step(old(self)@, Message::LabelClicked, now).0,
            final(fx)@ == deck_step(old(self)@, Message::LabelClicked, now).1,
            final(self).wf(),
    {
        let ghost d0 = self@;
        let ghost m0 = Message::LabelClicked;
        proof {
            reveal(deck_step);
        }
        match self.current {
            Some((a, _)) => {
                if a < self.library.len() {
                    self.screen = Screen::Reveal(a);
                }
            },
            None => {},
        }
    }

    fn album_selected_in(&mut self, i: usize, now: u64, fx: &mut Vec<Effect>)
        requires
            old(self).wf(),
            old(fx)@.len() == 0,
        ensures
            final(self)@ == deck_step(old(self)@, Message::AlbumSelected(i), now).0,
            final(fx)@ == deck_step(old(self)@, Message::AlbumSelected(i), now).1,
            final(self).wf(),
    {
        let ghost d0 = self@;
        let ghost m0 = Message::AlbumSelected(i);
        proof {
            reveal(deck_step);
        }
        self.screen = Screen::Reveal(i);
    }

    fn close_reveal_in(&mut self, now: u64, fx: &mut Vec<Effect>)
        requires
            old(self).wf(),
            old(fx)@.len() == 0,
        ensures
            final(self)@ == deck_step(old(self)@, Message::CloseReveal, now).0,
            final(fx)@ == deck_step(old(self)@, Message::CloseReveal, now).1,
            final(self).wf(),
    {
        let ghost d0 = self@;
        let ghost m0 = Message::CloseReveal;
        proof {
            reveal(deck_step);
        }
        self.screen = Screen::Rack;
    }

    fn play_track_in(&mut self, album: usize, track: usize, now: u64, fx: &mut Vec<Effect>)
        requires
            old(self).wf(),
            old(fx)@.len() == 0,
        ensures
            final(self)@ == deck_step(old(self)@, Message::PlayTrack { album, track }, now).0,
            final(fx)@ == deck_step(old(self)@, Message::PlayTrack { album, track }, now).1,
            final(self).wf(),
    {
        let ghost d0 = self@;
        let ghost m0 = Message::PlayTrack { album, track };
        proof {
            reveal(deck_step);
        }
        self.screen = Screen::Loading { album, track, started_ms: now };
    }

    fn open_case_in(&mut self, album: usize, track: usize, now: u64, fx: &mut Vec<Effect>)
        requires
            old(self).wf(),
            old(fx)@.len() == 0,
        ensures
            final(self)@ == deck_step(old(self)@, Message::OpenCase { album, track }, now).0,
            final(fx)@ == deck_step(old(self)@, Message::OpenCase { album, track }, now).1,
            final(self).wf(),
    {
        let ghost d0 = self@;
        let ghost m0 = Message::OpenCase { album, track };
        proof {
            reveal(deck_step);
        }
        self.screen = Screen::CaseOpen { album, track, started_ms: now };
    }

    fn toggle_play_in(&mut self, now: u64, fx: &mut Vec<Effect>)
        requires
            old(self).wf(),
            old(fx)@.len() == 0,
        ensures
            final(self)@ == deck_step(old(self)@, Message::TogglePlay, now).0,
            final(fx)@ == deck_step(old(self)@, Message::TogglePlay, now).1,
            final(self).wf(),
    {
        let ghost d0 = self@;
        let ghost m0 = Message::TogglePlay;
        proof {
            reveal(deck_step);
        }
        fx.push(Effect::Audio(AudioCmd::Sfx(Sfx::KeyPress)));
        match self.current {
            Some((a, t)) => {
                if self.stopped {
                    self.load_track_in(a, t, fx);
                } else if self.playing {
                    self.playing = false;
                    fx.push(Effect::Audio(AudioCmd::Pause));
                    fx.push(Effect::Mpris(MprisUpdate::Paused));
                    fx.push(Effect::SaveState(self.position_ms));
                } else {
                    self.playing = true;
                    fx.push(Effect::Audio(AudioCmd::Resume));
                    fx.push(Effect::Mpris(MprisUpdate::Playing));
                    fx.push(Effect::SaveState(self.position_ms));
                }
            },
            None => {},
        }
        assert(fx@ =~= deck_step(d0, m0, now).1);
    }

    fn stop_in(&mut self, now: u64, fx: &mut Vec<Effect>)
        requires
            old(self).wf(),
            old(fx)@.len() == 0,
        ensures
            final(self)@ == deck_step(old(self)@, Message::Stop, now).0,
            final(fx)@ == deck_step(old(self)@, Message::Stop, now).1,
            final(self).wf(),
    {
        let ghost d0 = self@;
        let ghost m0 = Message::Stop;
        proof {
            reveal(deck_step);
        }
        fx.push(Effect::Audio(AudioCmd::Sfx(Sfx::KeyPress)));
        fx.push(Effect::Audio(AudioCmd::Stop));
        self.playing = false;
        self.stopped = true;
        self.position_ms = 0;
        fx.push(Effect::Mpris(MprisUpdate::Stopped));
        fx.push(Effect::SaveState(0));
        assert(fx@ =~= deck_step(d0, m0, now).1);
    }

    fn next_in(&mut self, now: u64, fx: &mut Vec<Effect>)
        requires
            old(self).wf(),
            old(fx)@.len() == 0,
        ensures
            final(self)@ == deck_step(old(self)@, Message::Next, now).0,
            final(fx)@ == deck_step(old(self)@, Message::Next, now).1,
            final(self).wf(),
    {
        let ghost d0 = self@;
        let ghost m0 = Message::Next;
        proof {
            reveal(deck_step);
        }
        self.step_track_in(1, fx);
        assert(fx@ =~= deck_step(d0, m0, now).1);
    }

    fn prev_in(&mut self, now: u64, fx: &mut Vec<Effect>)
        requires
            old(self).wf(),
            old(fx)@.len() == 0,
        ensures
            final(self)@ == deck_step(old(self)@, Message::Prev, now).0,
            final(fx)@ == deck_step(old(self)@, Message::Prev, now).1,
            final(self).wf(),
    {
        let ghost d0 = self@;
        let ghost m0 = Message::Prev;
        proof {
            reveal(deck_step);
        }
        self.step_track_in(-1, fx);
        assert(fx@ =~= deck_step(d0, m0, now).1);
    }

    fn seek_in(&mut self, ppm: u32, now: u64, fx: &mut Vec<Effect>)
        requires
            old(self).wf(),
            old(fx)@.len() == 0,
        ensures
            final(self)@ == deck_step(old(self)@, Message::Seek(ppm), now).0,
            final(fx)@ == deck_step(old(self)@, Message::Seek(ppm), now).1,
            final(self).wf(),
    {
        let ghost d0 = self@;
        let ghost m0 = Message::Seek(ppm);
        proof {
            reveal(deck_step);
        }
        let total = self.duration();
        if total > 0 {
            let f: u128 = if ppm > 1_000_000 { 1_000_000 } else { ppm as u128 };
            assert(total * f <= 0xffff_ffff_ffff_ffff * 1_000_000) by (nonlinear_arith)
                requires
                    total <= 0xffff_ffff_ffff_ffff,
                    f <= 1_000_000,
            ;
            let target128: u128 = (total as u128) * f / 1_000_000;
            assert(target128 <= total) by (nonlinear_arith)
                requires
                    target128 == total * f / 1_000_000,
                    f <= 1_000_000,
            ;
            let target = target128 as u64;
            self.position_ms = target;
            fx.push(Effect::Audio(AudioCmd::Seek(target)));
            assert(fx@ =~= deck_step(d0, m0, now).1);
        }
    }

    fn seek_by_in(&mut self, delta: i64, now: u64, fx: &mut Vec<Effect>)
        requires
            old(self).wf(),
            old(fx)@.len() == 0,
        ensures
            final(self)@ == deck_step(old(self)@, Message::SeekBy(delta), now).0,
            final(fx)@ == deck_step(old(self)@, Message::SeekBy(delta), now).1,
            final(self).wf(),
    {
        let ghost d0 = self@;
        let ghost m0 = Message::SeekBy(delta);
        proof {
            reveal(deck_step);
        }
        let total = self.duration();
        if total > 0 && !self.stopped {
            let raw: i128 = self.position_ms as i128 + delta as i128;
            let target: i128 = if raw < 0 {
                0
            } else if raw > total as i128 {
                total as i128
            } else {
                raw
            };
            self.position_ms = target as u64;
            fx.push(Effect::Audio(AudioCmd::Seek(target as u64)));
            assert(fx@ =~= deck_step(d0, m0, now).1);
        }
    }

    fn wind_start_in(&mut self, dir: i8, now: u64, fx: &mut Vec<Effect>)
        requires
            old(self).wf(),
            old(fx)@.len() == 0,
        ensures
            final(self)@ == deck_step(old(self)@, Message::WindStart(dir), now).0,
            final(fx)@ == deck_step(old(self)@, Message::WindStart(dir), now).1,
            final(self).wf(),
    {
        let ghost d0 = self@;
        let ghost m0 = Message::WindStart(dir);
        proof {
            reveal(deck_step);
        }
        if self.current.is_some() && !self.stopped && self.wind.is_none() {
            self.wind = Some(dir);
            self.wind_resume = self.playing;
            if self.playing {
                fx.push(Effect::Audio(AudioCmd::Pause));
            }
            fx.push(Effect::Audio(AudioCmd::Sfx(Sfx::KeyPress)));
            fx.push(Effect::Audio(AudioCmd::Wind(true)));
            assert(fx@ =~= deck_step(d0, m0, now).1);
        }
    }

    fn toggle_skip_mode_in(&mut self, now: u64, fx: &mut Vec<Effect>)
        requires
            old(self).wf(),
            old(fx)@.len() == 0,
        ensures
            final(self)@ == deck_step(old(self)@, Message::ToggleSkipMode, now).0,
            final(fx)@ == deck_step(old(self)@, Message::ToggleSkipMode, now).1,
            final(self).wf(),
    {
        let ghost d0 = self@;
        let ghost m0 = Message::ToggleSkipMode;
        proof {
            reveal(deck_step);
        }
        fx.push(Effect::Audio(AudioCmd::Sfx(Sfx::KeyPress)));
        fx.push(Effect::Audio(AudioCmd::Wind(false)));
        if self.wind.is_some() {
            self.wind = None;
            fx.push(Effect::Audio(AudioCmd::Seek(self.position_ms)));
            if self.wind_resume {
                fx.push(Effect::Audio(AudioCmd::Resume));
                self.playing = true;
            }
        }
        self.skip_mode = !self.skip_mode;
        assert(fx@ =~= deck_step(d0, m0, now).1);
    }

    fn wind_stop_in(&mut self, now: u64, fx: &mut Vec<Effect>)
        requires
            old(self).wf(),
            old(fx)@.len() == 0,
        ensures
            final(self)@ == deck_step(old(self)@, Message::WindStop, now).0,
            final(fx)@ == deck_step(old(self)@, Message::WindStop, now).1,
            final(self).wf(),
    {
        let ghost d0 = self@;
        let ghost m0 = Message::WindStop;
        proof {
            reveal(deck_step);
        }
        fx.push(Effect::Audio(AudioCmd::Wind(false)));
        if self.wind.is_some() {
            self.wind = None;
            fx.push(Effect::Audio(AudioCmd::Seek(self.position_ms)));
            if self.wind_resume {
                fx.push(Effect::Audio(AudioCmd::Resume));
                self.playing = true;
                fx.push(Effect::Mpris(MprisUpdate::Playing));
            }
            fx.push(Effect::SaveState(self.position_ms));
        }
        assert(fx@ =~= deck_step(d0, m0, now).1);
    }

    fn cycle_skin_in(&mut self, now: u64, fx: &mut Vec<Effect>)
        requires
            old(self).wf(),
            old(fx)@.len() == 0,
        ensures
            final(self)@ == deck_step(old(self)@, Message::CycleSkin, now).0,
            final(fx)@ == deck_step(old(self)@, Message::CycleSkin, now).1,
            final(self).wf(),
    {
        let ghost d0 = self@;
        let ghost m0 = Message::CycleSkin;
        proof {
            reveal(deck_step);
        }
        let n = self.skin_ids.len();
        assert(self.skin_idx < n);
        self.skin_idx = (self.skin_idx + 1) % n;
        match self.current {
            Some((a, t)) => {
                if a < self.library.len() && t < self.library[a].tracks.len() {
                    let album = &self.library[a];
                    fx.push(
                        Effect::RenderLabel {
                            song: album.tracks[t].title.clone(),
                            album: album.title.clone(),
                        },
                    );
                }
            },
            None => {},
        }
        fx.push(Effect::SaveState(self.position_ms));
        assert(fx@ =~= deck_step(d0, m0, now).1);
    }

    fn toggle_wallpaper_in(&mut self, now: u64, fx: &mut Vec<Effect>)
        requires
            old(self).wf(),
            old(fx)@.len() == 0,
        ensures
            final(self)@ == deck_step(old(self)@, Message::ToggleWallpaper, now).0,
            final(fx)@ == deck_step(old(self)@, Message::ToggleWallpaper, now).1,
            final(self).wf(),
    {
        let ghost d0 = self@;
        proof {
            reveal(deck_step);
        }
        self.wallpaper = !self.wallpaper;
        fx.push(Effect::SaveState(self.position_ms));
        assert(fx@ =~= deck_step(d0, Message::ToggleWallpaper, now).1);
    }

    fn cycle_background_in(&mut self, now: u64, fx: &mut Vec<Effect>)
        requires
            old(self).wf(),
            old(fx)@.len() == 0,
        ensures
            final(self)@ == deck_step(old(self)@, Message::CycleBackground, now).0,
            final(fx)@ == deck_step(old(self)@, Message::CycleBackground, now).1,
            final(self).wf(),
    {
        let ghost d0 = self@;
        let ghost m0 = Message::CycleBackground;
        proof {
            reveal(deck_step);
        }
        if self.bg_sources.len() > 0 {
            self.bg_idx = (self.bg_idx + 1) % self.bg_sources.len();
            fx.push(Effect::SaveState(self.position_ms));
            assert(fx@ =~= deck_step(d0, m0, now).1);
        }
    }

    fn pick_background_in(&mut self, now: u64, fx: &mut Vec<Effect>)
        requires
            old(self).wf(),
            old(fx)@.len() == 0,
        ensures
            final(self)@ == deck_step(old(self)@, Message::PickBackground, now).0,
            final(fx)@ == deck_step(old(self)@, Message::PickBackground, now).1,
            final(self).wf(),
    {
        let ghost d0 = self@;
        let ghost m0 = Message::PickBackground;
        proof {
            reveal(deck_step);
        }
        fx.push(Effect::PickBackground);
        assert(fx@ =~= deck_step(d0, m0, now).1);
    }

    fn background_added_in(&mut self, path: String, now: u64, fx: &mut Vec<Effect>)
        requires
            old(self).wf(),
            old(fx)@.len() == 0,
        ensures
            final(self)@ == deck_step(old(self)@, Message::BackgroundAdded(path), now).0,
            final(fx)@ == deck_step(old(self)@, Message::BackgroundAdded(path), now).1,
            final(self).wf(),
    {
        let ghost d0 = self@;
        let ghost m0 = Message::BackgroundAdded(path);
        proof {
            reveal(deck_step);
        }
        let ghost p = path@;
        self.bg_idx = self.bg_sources.len();
        self.bg_sources.push(Some(path));
        assert(self@.bg_sources =~= d0.bg_sources.push(Some(p)));
        fx.push(Effect::SaveState(self.position_ms));
        assert(fx@ =~= deck_step(d0, m0, now).1);
    }

    fn background_failed_in(&mut self, why: String, now: u64, fx: &mut Vec<Effect>)
        requires
            old(self).wf(),
            old(fx)@.len() == 0,
        ensures
            final(self)@ == deck_step(old(self)@, Message::BackgroundFailed(why), now).0,
            final(fx)@ == deck_step(old(self)@, Message::BackgroundFailed(why), now).1,
            final(self).wf(),
    {
        let ghost d0 = self@;
        let ghost m0 = Message::BackgroundFailed(why);
        proof {
            reveal(deck_step);
        }
        let mut n = "Couldn't load background: ".to_owned();
        n.append(why.as_str());
        self.notice = Some(n);
    }

    fn remove_background_in(&mut self, now: u64, fx: &mut Vec<Effect>)
        requires
            old(self).wf(),
            old(fx)@.len() == 0,
        ensures
            final(self)@ == deck_step(old(self)@, Message::RemoveBackground, now).0,
            final(fx)@ == deck_step(old(self)@, Message::RemoveBackground, now).1,
            final(self).wf(),
    {
        let ghost d0 = self@;
        let ghost m0 = Message::RemoveBackground;
        proof {
            reveal(deck_step);
        }
        let removable = self.bg_idx < self.bg_sources.len() && match &self.bg_sources[self.bg_idx] {
            Some(_) => true,
            None => false,
        };
        if removable {
            let i = self.bg_idx;
            let _gone = self.bg_sources.remove(i);
            assert(self@.bg_sources =~= d0.bg_sources.remove(i as int));
            if self.bg_idx >= self.bg_sources.len() {
                self.bg_idx = if self.bg_sources.len() == 0 {
                    0
                } else {
                    self.bg_sources.len() - 1
                };
            }
            fx.push(Effect::DropBackground(i));
            fx.push(Effect::SaveState(self.position_ms));
            assert(self@.bg_sources[0] is None);
            assert(fx@ =~= deck_step(d0, m0, now).1);
        } else {
            self.notice = Some(
                "That's a built-in background — it can't be removed. Cycle to an image you added with ＋ Image to remove it.".to_owned(),
            );
        }
    }

    fn browse_step_in(&mut self, delta: i32, now: u64, fx: &mut Vec<Effect>)
        requires
            old(self).wf(),
            old(fx)@.len() == 0,
        ensures
            final(self)@ == deck_step(old(self)@, Message::BrowseStep(delta), now).0,
            final(fx)@ == deck_step(old(self)@, Message::BrowseStep(delta), now).1,
            final(self).wf(),
    {
        let ghost d0 = self@;
        let ghost m0 = Message::BrowseStep(delta);
        proof {
            reveal(deck_step);
        }
        if self.screen == Screen::Rack && self.library.len() > 0 {
            self.browse_index = wrap_index(self.browse_index, delta as i64, self.library.len());
            fx.push(Effect::RebuildFan);
            assert(fx@ =~= deck_step(d0, m0, now).1);
        }
    }

    fn step_in(&mut self, msg: Message, now: u64, fx: &mut Vec<Effect>)
        requires
            old(self).wf(),
            old(fx)@.len() == 0,
        ensures
            final(self)@ == deck_step(old(self)@, msg, now).0,
            final(fx)@ == deck_step(old(self)@, msg, now).1,
            final(self).wf(),
    {
        match msg {
            Message::Tick => self.tick_in(now, fx),
            Message::StatusPolled(st) => self.status_polled_in(st, now, fx),
            Message::OpenFolder => self.open_folder_in(now, fx),
            Message::FolderChosen(Some(dir)) => self.folder_chosen_in(dir, now, fx),
            Message::LibraryLoaded { albums, skipped } => self.library_loaded_in(albums, skipped, now, fx),
            Message::ArtLoaded(k) => self.art_loaded_in(k, now, fx),
            Message::ShowRack => self.show_rack_in(now, fx),
            Message::ShowPlayer => self.show_player_in(now, fx),
            Message::LabelClicked => self.label_clicked_in(now, fx),
            Message::AlbumSelected(i) => self.album_selected_in(i, now, fx),
            Message::CloseReveal => self.close_reveal_in(now, fx),
            Message::PlayTrack { album, track } => self.play_track_in(album, track, now, fx),
            Message::OpenCase { album, track } => self.open_case_in(album, track, now, fx),
            Message::TogglePlay => self.toggle_play_in(now, fx),
            Message::Stop => self.stop_in(now, fx),
            Message::Next => self.next_in(now, fx),
            Message::Prev => self.prev_in(now, fx),
            Message::Seek(ppm) => self.seek_in(ppm, now, fx),
            Message::SeekBy(delta) => self.seek_by_in(delta, now, fx),
            Message::WindStart(dir) => self.wind_start_in(dir, now, fx),
            Message::ToggleSkipMode => self.toggle_skip_mode_in(now, fx),
            Message::WindStop => self.wind_stop_in(now, fx),
            Message::CycleSkin => self.cycle_skin_in(now, fx),
            Message::ToggleWallpaper => self.toggle_wallpaper_in(now, fx),
            Message::CycleBackground => self.cycle_background_in(now, fx),
            Message::PickBackground => self.pick_background_in(now, fx),
            Message::BackgroundAdded(path) => self.background_added_in(path, now, fx),
            Message::BackgroundFailed(why) => self.background_failed_in(why, now, fx),
            Message::RemoveBackground => self.remove_background_in(now, fx),
            Message::BrowseStep(delta) => self.browse_step_in(delta, now, fx),
            Message::FolderChosen(None) => {
                proof {
                    reveal(deck_step);
                }
            },
            Message::Mpris(_) => {
                proof {
                    reveal(deck_step);
                }
            },
        }
    }

    /// Handles `msg` at time `now_ms` (see `deck_next`): the deck moves to its
    /// next state, keeping its invariant, and returns the effects to carry
    /// out, in order.
    pub fn update(&mut self, msg: Message, now_ms: u64) -> (fx: Vec<Effect>)
        requires
            old(self).wf(),
        ensures
            final(self).wf(),
            final(self)@ == deck_next(old(self)@, msg, now_ms).0,
            fx@ == deck_next(old(self)@, msg, now_ms).1,
    {
        let mut fx: Vec<Effect> = Vec::new();
        proof {
            reveal(deck_step);
        }
        match msg {
            Message::Mpris(cmd) => match self.mpris_message(cmd) {
                Some(m) => {
                    self.step_in(m, now_ms, &mut fx);
                },
                None => {},
            },
            other => {
                self.step_in(other, now_ms, &mut fx);
            },
        }
        fx
    }
}

/// Whether a saved switch text turns the switch on: only `true` does.
pub open spec fn restored_flag(saved: Option<Seq<char>>) -> bool {
    saved == Some("true"@)
}

/// Reads a saved switch text (see `restored_flag`).
pub fn switch_on(saved: Option<String>) -> (on: bool)
    ensures
        on == restored_flag(opt_chars(saved)),
{
    match saved {
        Some(t) => t == "true".to_owned(),
        None => false,
    }
}

/// The skin restored from the saved id: the first skin with that id, else
/// the first skin.
pub open spec fn restored_skin(ids: Seq<Seq<char>>, saved: Option<Seq<char>>, i: int) -> bool {
    match saved {
        Some(id) => if exists|k: int| 0 <= k < ids.len() && ids[k] == id {
            0 <= i < ids.len() && ids[i] == id && forall|k: int| 0 <= k < i ==> ids[k] != id
        } else {
            i == 0
        },
        None => i == 0,
    }
}

/// The index of the skin whose id was saved, else 0.
pub fn skin_index(ids: &Vec<String>, saved: Option<String>) -> (out: usize)
    ensures
        restored_skin(texts(ids@), opt_chars(saved), out as int),
{
    let ghost v = texts(ids@);
    let ghost sv = saved;
    match saved {
        Some(id) => {
            assert(opt_chars(sv) == Some(id@));
            let mut i: usize = 0;
            while i < ids.len()
                invariant
                    i <= ids@.len(),
                    v == texts(ids@),
                    opt_chars(sv) == Some(id@),
                    sv == saved,
                    forall|k: int| 0 <= k < i ==> v[k] != id@,
                decreases ids@.len() - i,
            {
                if ids[i] == id {
                    assert(v[i as int] == id@);
                    return i;
                }
                i = i + 1;
            }
            assert(!exists|k: int| 0 <= k < v.len() && v[k] == id@);
            0
        },
        None => 0,
    }
}

/// The added backgrounds' paths, in order.
pub open spec fn added_files(sources: Seq<Option<Seq<char>>>) -> Seq<Seq<char>>
    decreases sources.len(),
{
    if sources.len() == 0 {
        Seq::empty()
    } else {
        let rest = added_files(sources.drop_last());
        match sources.last() {
            Some(p) => rest.push(p),
            None => rest,
        }
    }
}

/// `st` records the deck `d`: its music folder, its skin's id, its
/// background index, the added backgrounds' paths in order, and the loaded
/// track's path with the position text `position`.
pub open spec fn records(d: DeckView, st: SavedState, position: Seq<char>) -> bool {
    &&& opt_chars(st.music_dir) == d.music_dir
    &&& st.skin@ == d.skin_ids[d.skin_idx as int]
    &&& st.bg_idx == d.bg_idx
    &&& st.files_view() == added_files(d.bg_sources)
    &&& st.wallpaper == d.wallpaper
    &&& match d.current {
        Some((a, t)) => st.resume matches Some((p, q)) && p@ == d.library[a as int].tracks@[t as int].path@
            && q@ == position,
        None => st.resume is None,
    }
}

impl Deck {
    /// A deck at start-up: on the rack, nothing loaded, the saved skin,
    /// background and wallpaper switch restored (see `restored_skin`,
    /// `restore_bg_idx` and `restored_flag`), and the last session's tape
    /// waiting for the library.
    pub fn new(
        skin_ids: Vec<String>,
        saved_skin: Option<String>,
        bg_sources: Vec<Option<String>>,
        saved_bg_idx: Option<String>,
        saved_wallpaper: Option<String>,
        music_dir: Option<String>,
        pending_resume: Option<(String, u64)>,
        now_ms: u64,
    ) -> (d: Deck)
        requires
            skin_ids@.len() > 0,
            bg_sources@.len() > 0,
            bg_sources@[0] is None,
        ensures
            d.wf(),
            d@.screen == Screen::Rack,
            d@.library.len() == 0,
            d@.current is None,
            !d@.playing && !d@.stopped && !d@.scanning,
            d@.wind is None && !d@.wind_resume && !d@.skip_mode && d@.skip_anim is None,
            d@.position_ms == 0 && d@.tick_dt_ms == 0,
            d@.skin_ids == texts(skin_ids@),
            restored_skin(d@.skin_ids, opt_chars(saved_skin), d@.skin_idx as int),
            d@.bg_sources == sources(bg_sources@),
            d@.bg_idx == crate::state::restored_bg(opt_chars(saved_bg_idx), bg_sources@.len()),
            d@.wallpaper == restored_flag(opt_chars(saved_wallpaper)),
            d@.music_dir == opt_chars(music_dir),
            d@.pending_resume == resume_view(pending_resume),
            d@.notice is None,
            d@.browse_index == 0,
            d@.last_save_ms == now_ms && d@.last_tick_ms == now_ms,
    {
        let skin_idx = skin_index(&skin_ids, saved_skin);
        let bg_idx = crate::state::restore_bg_idx(saved_bg_idx, bg_sources.len());
        let wallpaper = switch_on(saved_wallpaper);
        Deck {
            screen: Screen::Rack,
            library: Vec::new(),
            scanning: false,
            current: None,
            position_ms: 0,
            playing: false,
            stopped: false,
            wind: None,
            wind_resume: false,
            skip_mode: false,
            skip_anim: None,
            music_dir,
            pending_resume,
            last_save_ms: now_ms,
            last_tick_ms: now_ms,
            tick_dt_ms: 0,
            notice: None,
            skin_ids,
            skin_idx,
            bg_sources,
            bg_idx,
            wallpaper,
            browse_index: 0,
        }
    }

    /// Starts the deck: a remembered music folder is scanned, and the deck
    /// shows that it is scanning; nothing else changes.
    pub fn startup(&mut self) -> (fx: Vec<Effect>)
        requires
            old(self).wf(),
        ensures
            final(self).wf(),
            final(self)@ == (DeckView { scanning: old(self)@.music_dir is Some, ..old(self)@ }),
            fx@ == match old(self).music_dir {
                Some(dir) => seq![Effect::Scan(dir)],
                None => Seq::<Effect>::empty(),
            },
    {
        let mut fx: Vec<Effect> = Vec::new();
        match &self.music_dir {
            Some(dir) => {
                self.scanning = true;
                fx.push(Effect::Scan(dir.clone()));
            },
            None => {
                self.scanning = false;
            },
        }
        fx
    }

    /// Whether the deck wants frame ticks: a loaded tape that is not
    /// stopped, a wind, a skip burst or a running animation.
    pub fn wants_ticks(&self) -> (b: bool)
        ensures
            b == ((self@.current is Some && !self@.stopped) || self@.wind is Some
                || self@.skip_anim is Some || self@.screen is Loading || self@.screen is CaseOpen),
    {
        (self.current.is_some() && !self.stopped) || self.wind.is_some() || self.skip_anim.is_some()
            || match self.screen {
            Screen::Loading { .. } => true,
            Screen::CaseOpen { .. } => true,
            _ => false,
        }
    }

    /// What the state file records: the music folder, the given volume text,
    /// the skin's id, the background index, the added backgrounds' paths, and
    /// the loaded track's path with the given position text.
    pub fn saved_state(&self, volume: String, position: String) -> (st: SavedState)
        requires
            self.wf(),
        ensures
            records(self@, st, position@),
            st.volume@ == volume@,
    {
        let mut files: Vec<String> = Vec::new();
        let mut i: usize = 0;
        while i < self.bg_sources.len()
            invariant
                i <= self.bg_sources@.len(),
                files@.map_values(|f: String| f@) == added_files(
                    self@.bg_sources.take(i as int),
                ),
            decreases self.bg_sources@.len() - i,
        {
            proof {
                assert(self@.bg_sources.take(i as int + 1).drop_last() =~= self@.bg_sources.take(i as int));
            }
            match &self.bg_sources[i] {
                Some(p) => {
                    files.push(p.clone());
                    assert(files@.map_values(|f: String| f@) =~= added_files(self@.bg_sources.take(i as int + 1)));
                },
                None => {},
            }
            i = i + 1;
        }
        assert(self@.bg_sources.take(self@.bg_sources.len() as int) =~= self@.bg_sources);
        let resume = match self.current {
            Some((a, t)) => Some((self.library[a].tracks[t].path.clone(), position)),
            None => None,
        };
        SavedState {
            music_dir: self.music_dir.clone(),
            volume,
            skin: self.skin_ids[self.skin_idx].clone(),
            bg_idx: self.bg_idx,
            bg_files: files,
            wallpaper: self.wallpaper,
            resume,
        }
    }
}

/// What the audio thread sees of its sink after a command.
pub struct SinkProbe {
    /// The sink's position, in milliseconds.
    pub position_ms: u64,
    pub paused: bool,
    /// Whether the sink has nothing left to play.
    pub empty: bool,
}

impl Default for SharedStatus {
    fn default() -> (st: SharedStatus)
        ensures
            st.position_ms == 0 && !st.playing && !st.track_finished && st.error is None,
    {
        SharedStatus { position_ms: 0, playing: false, track_finished: false, error: None }
    }
}

impl SharedStatus {
    /// A track started: at its beginning, playing, not finished.
    pub fn started(&mut self)
        ensures
            final(self).position_ms == 0,
            final(self).playing,
            !final(self).track_finished,
            final(self).error == old(self).error,
    {
        self.position_ms = 0;
        self.track_finished = false;
        self.playing = true;
    }

    /// Playback stopped: at the beginning, not playing, not finished.
    pub fn stopped(&mut self)
        ensures
            final(self).position_ms == 0,
            !final(self).playing,
            !final(self).track_finished,
            final(self).error == old(self).error,
    {
        self.position_ms = 0;
        self.playing = false;
        self.track_finished = false;
    }

    /// Records an error for the GUI to show once.
    pub fn report(&mut self, msg: String)
        ensures
            final(self).error == Some(msg),
            final(self).position_ms == old(self).position_ms,
            final(self).playing == old(self).playing,
            final(self).track_finished == old(self).track_finished,
    {
        self.error = Some(msg);
    }

    /// Mirrors the sink after a command; `loaded` says whether a track is
    /// still expected to play out. The position and play state follow the
    /// sink (no sink: not playing); a loaded track whose sink ran empty is
    /// marked finished, once. Returns whether a track is still loaded.
    pub fn refresh(&mut self, sink: Option<SinkProbe>, loaded: bool) -> (still: bool)
        ensures
            match sink {
                Some(p) => {
                    &&& final(self).position_ms == p.position_ms
                    &&& final(self).playing == (!p.paused && !p.empty)
                    &&& final(self).track_finished == finished_after(old(self).track_finished, loaded, p.empty)
                    &&& still == loaded_after(loaded, p.empty)
                },
                None => {
                    &&& final(self).position_ms == old(self).position_ms
                    &&& !final(self).playing
                    &&& final(self).track_finished == old(self).track_finished
                    &&& still == loaded
                },
            },
            final(self).error == old(self).error,
    {
        match sink {
            Some(p) => {
                self.position_ms = p.position_ms;
                self.playing = !p.paused && !p.empty;
                if loaded && p.empty {
                    self.track_finished = true;
                    false
                } else {
                    loaded
                }
            },
            None => {
                self.playing = false;
                loaded
            },
        }
    }

    /// What the GUI reads on a tick: the status as it is, with the finished
    /// flag and the error handed over and cleared.
    pub fn take_poll(&mut self) -> (st: SharedStatus)
        ensures
            st.position_ms == old(self).position_ms,
            st.playing == old(self).playing,
            st.track_finished == old(self).track_finished,
            st.error == old(self).error,
            final(self).position_ms == old(self).position_ms,
            final(self).playing == old(self).playing,
            !final(self).track_finished,
            final(self).error is None,
    {
        let finished = self.track_finished;
        self.track_finished = false;
        let error = self.error.take();
        SharedStatus { position_ms: self.position_ms, playing: self.playing, track_finished: finished, error }
    }
}

/// The finished flag after a refresh: raised when a loaded track's sink ran
/// empty, else as it was.
pub open spec fn finished_after(flag: bool, loaded: bool, empty: bool) -> bool {
    flag || (loaded && empty)
}

/// Whether a track is still loaded after a refresh.
pub open spec fn loaded_after(loaded: bool, empty: bool) -> bool {
    loaded && !empty
}

/// A finished track is reported once: once the flag has been raised and
/// read, further refreshes of the same empty sink do not raise it again.
pub proof fn lemma_finished_once(loaded: bool)
    ensures
        !finished_after(false, loaded_after(loaded, true), true),
{
}

} // verus!
