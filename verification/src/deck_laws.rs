//! What holds of the deck across messages.
use vstd::prelude::*;
use crate::state::{
    SavedState, clean_path, clean_value, flag_text, lemma_parse_decimal, lemma_state_roundtrip, lookup,
    parsed_state, restored_bg, text_of_lines,
};
use crate::deck::{
    AudioCmd, DeckView, Effect, Message, MprisCmd, MprisUpdate, Screen, Sfx, SharedStatus, deck_next,
    deck_sized, deck_step, deck_wf, duration_ms, has_track, on_library, records, restored_flag, restored_skin, step_track,
};

verus! {

/// Stepping the fan browser by `k` albums and then by `-k` comes back to the
/// same album.
pub proof fn lemma_browse_back(d: DeckView, k: i32, now: u64)
    requires
        k > i32::MIN,
        deck_wf(d),
        deck_sized(d),
        d.screen == Screen::Rack,
        d.library.len() > 0,
    ensures
        deck_next(deck_next(d, Message::BrowseStep(k), now).0, Message::BrowseStep((-k) as i32), now).0.browse_index
            == d.browse_index,
{
    reveal(deck_step);
    let n = d.library.len() as int;
    let b = d.browse_index as int;
    let b1 = (b + k) % n;
    vstd::arithmetic::div_mod::lemma_mod_bound(b + k, n);
    let d1 = deck_next(d, Message::BrowseStep(k), now).0;
    assert(d1.browse_index == b1);
    assert(d1.screen == Screen::Rack && d1.library == d.library);
    vstd::arithmetic::div_mod::lemma_add_mod_noop_right(-k as int, b + k, n);
    assert((-k + b1) % n == b % n);
    vstd::arithmetic::div_mod::lemma_small_mod(b as nat, n as nat);
}

/// Play after Stop reloads the same tape from its start: the same track,
/// position zero, playing, no longer stopped, and the audio thread is told to
/// load that track's file.
pub proof fn lemma_stop_then_play(d: DeckView, now: u64)
    requires
        deck_wf(d),
        d.current is Some,
    ensures
        ({
            let (a, t) = d.current->0;
            let d1 = deck_next(d, Message::Stop, now).0;
            let (d2, fx) = deck_next(d1, Message::TogglePlay, now);
            &&& d2.current == d.current
            &&& d2.position_ms == 0
            &&& d2.playing
            &&& !d2.stopped
            &&& fx.len() > 1
            &&& fx[1] == Effect::Audio(AudioCmd::Load(d.library[a as int].tracks@[t as int].path))
        }),
{
    reveal(deck_step);
}

/// Play/pause pressed twice on a loaded, running deck leaves it playing (or
/// paused) as it was.
pub proof fn lemma_toggle_twice(d: DeckView, now: u64)
    requires
        deck_wf(d),
        d.current is Some,
        !d.stopped,
    ensures
        deck_next(deck_next(d, Message::TogglePlay, now).0, Message::TogglePlay, now).0.playing
            == d.playing,
{
    reveal(deck_step);
}

/// How many built-in backgrounds there are.
pub open spec fn builtin_count(sources: Seq<Option<Seq<char>>>) -> nat {
    sources.filter(|o: Option<Seq<char>>| o is None).len()
}

/// No message removes or adds a built-in background.
pub proof fn lemma_builtins_stay(d: DeckView, msg: Message, now: u64)
    requires
        deck_wf(d),
    ensures
        builtin_count(deck_next(d, msg, now).0.bg_sources) == builtin_count(d.bg_sources),
{
    reveal(deck_step);
    let p = |o: Option<Seq<char>>| o is None;
    let s = d.bg_sources;
    match msg {
        Message::BackgroundAdded(path) => {
            s.lemma_filter_push(Some(path@), p);
            reveal(Seq::filter);
        },
        Message::RemoveBackground => {
            if d.bg_idx < s.len() && s[d.bg_idx as int] is Some {
                let i = d.bg_idx as int;
                let a = s.take(i);
                let b = s.skip(i + 1);
                assert(s =~= a + seq![s[i]] + b);
                assert(s.remove(i) =~= a + b);
                Seq::filter_distributes_over_add(a + seq![s[i]], b, p);
                Seq::filter_distributes_over_add(a, seq![s[i]], p);
                Seq::filter_distributes_over_add(a, b, p);
                reveal(Seq::filter);
                Seq::<Option<Seq<char>>>::empty().lemma_filter_push(s[i], p);
                assert(seq![s[i]] =~= Seq::<Option<Seq<char>>>::empty().push(s[i]));
                assert(Seq::<Option<Seq<char>>>::empty().filter(p) =~= Seq::<Option<Seq<char>>>::empty());
            }
        },
        _ => {},
    }
}

/// Past the last track of the last album the deck stops: not playing,
/// stopped, position zero, the tape still in.
pub proof fn lemma_end_of_shelf(d: DeckView, now: u64)
    requires
        deck_wf(d),
        d.current matches Some((a, t)) && a + 1 == d.library.len() && t + 1 == d.library[a as int].tracks@.len(),
    ensures
        ({
            let (d1, fx) = deck_next(d, Message::Next, now);
            &&& d1.stopped && !d1.playing && d1.position_ms == 0
            &&& d1.current == d.current
            &&& fx == seq![Effect::Audio(AudioCmd::Stop), Effect::Mpris(MprisUpdate::Stopped)]
        }),
{
    reveal(deck_step);
}

/// Previous after Next comes back to the same track, within an album and
/// across album boundaries, on a shelf whose albums all have tracks, unless
/// Next ran off the end of the shelf.
pub proof fn lemma_next_then_prev(d: DeckView, now: u64)
    requires
        deck_wf(d),
        deck_sized(d),
        forall|i: int| 0 <= i < d.library.len() ==> d.library[i].tracks@.len() > 0,
        d.current matches Some((a, t)) && !(a + 1 == d.library.len() && t + 1 == d.library[a as int].tracks@.len()),
    ensures
        deck_next(deck_next(d, Message::Next, now).0, Message::Prev, now).0.current == d.current,
{
    reveal(deck_step);
    let (a, t) = d.current->0;
    let len = d.library[a as int].tracks@.len();
    assert(len > 0);
    let d1 = deck_next(d, Message::Next, now).0;
    if t + 1 < len {
        assert(d1.current == Some((a, (t + 1) as usize)));
        assert(d1.library == d.library);
    } else {
        assert(a + 1 < d.library.len());
        assert(d.library[a + 1].tracks@.len() > 0);
        assert(d1.current == Some(((a + 1) as usize, 0usize)));
        assert(d1.library == d.library);
    }
}

/// A finished track moves the deck on to the next one with the end-of-tape
/// clunk first, like Next.
pub proof fn lemma_finished_advances(d: DeckView, st: SharedStatus, now: u64)
    requires
        deck_wf(d),
        st.track_finished,
    ensures
        ({
            let (d1, fx) = deck_next(d, Message::StatusPolled(st), now);
            let d0 = DeckView {
                position_ms: st.position_ms,
                playing: st.playing,
                notice: match st.error {
                    Some(e) => Some(e@),
                    None => d.notice,
                },
                ..d
            };
            &&& d1 == step_track(d0, 1).0
            &&& fx == seq![Effect::Audio(AudioCmd::Sfx(Sfx::EndClack))] + step_track(d0, 1).1
        }),
{
    reveal(deck_step);
}

/// The play media key does nothing on a playing deck, nor the pause key on a
/// paused one.
pub proof fn lemma_media_keys_idle(d: DeckView, now: u64)
    ensures
        d.playing ==> deck_next(d, Message::Mpris(MprisCmd::Play), now) == (d, Seq::<Effect>::empty()),
        !d.playing ==> deck_next(d, Message::Mpris(MprisCmd::Pause), now) == (d, Seq::<Effect>::empty()),
{
}

/// Seeking never leaves the loaded track: the position stays within its
/// running time.
pub proof fn lemma_seek_within(d: DeckView, msg: Message, now: u64)
    requires
        deck_wf(d),
        msg is Seek || msg is SeekBy,
        d.position_ms <= duration_ms(d),
    ensures
        deck_next(d, msg, now).0.position_ms <= duration_ms(d),
{
    reveal(deck_step);
    match msg {
        Message::Seek(ppm) => {
            let total = duration_ms(d);
            if total > 0 {
                let f: int = if ppm > 1_000_000 { 1_000_000 } else { ppm as int };
                assert(total * f / 1_000_000 <= total) by (nonlinear_arith)
                    requires
                        0 <= f <= 1_000_000,
                        total >= 0,
                ;
            }
        },
        _ => {},
    }
}

/// A finished track at the end of an album rolls on to the first track of
/// the next cassette on the shelf.
pub proof fn lemma_album_rolls_on(d: DeckView, st: SharedStatus, now: u64)
    requires
        deck_wf(d),
        deck_sized(d),
        st.track_finished,
        d.current matches Some((a, t)) && a + 1 < d.library.len() && t + 1 == d.library[a as int].tracks@.len()
            && d.library[a + 1].tracks@.len() > 0,
    ensures
        ({
            let (a, t) = d.current->0;
            let d1 = deck_next(d, Message::StatusPolled(st), now).0;
            d1.current == Some(((a + 1) as usize, 0usize)) && d1.playing
        }),
{
    reveal(deck_step);
}

/// A new library always opens on the rack, even when the last session's
/// tape is reloaded.
pub proof fn lemma_library_opens_on_rack(d: DeckView, albums: Seq<crate::library::Album>, skipped: usize)
    ensures
        on_library(d, albums, skipped).0.screen == Screen::Rack,
        on_library(d, albums, skipped).0.browse_index == 0,
{
}

/// Holding a wind key and letting go leaves a running deck running and a
/// paused one paused, with the wind over.
pub proof fn lemma_wind_round_trip(d: DeckView, dir: i8, now: u64)
    requires
        deck_wf(d),
        d.current is Some,
        !d.stopped,
        d.wind is None,
    ensures
        ({
            let d1 = deck_next(d, Message::WindStart(dir), now).0;
            let d2 = deck_next(d1, Message::WindStop, now).0;
            &&& d1.wind == Some(dir)
            &&& d2.wind is None
            &&& d2.playing == d.playing
        }),
{
    reveal(deck_step);
}

/// The entries that reading back the state file written for `st` gives.
pub open spec fn read_back(st: SavedState) -> Seq<(Seq<char>, Seq<char>)> {
    parsed_state(text_of_lines(st.lines()))
}

/// A saved session comes back at the next start: when the state file was
/// written for deck `d` and a deck `r` starts from what reading it back
/// gives (the same skins, the added backgrounds and the music folder still
/// there, the last track's file still there), `r` has `d`'s skin (the same
/// id; the same index too when skin ids are distinct), background,
/// wallpaper switch and music folder, is
/// scanning exactly when a folder was saved, and waits to resume `d`'s
/// loaded track. Every saved value must read back unchanged (no line
/// breaks, no whitespace at either end; no tabs in added paths).
pub proof fn lemma_session_restores(d: DeckView, st: SavedState, position: Seq<char>, r: DeckView)
    requires
        deck_wf(d),
        records(d, st, position),
        st.music_dir matches Some(m) ==> clean_value(m@),
        clean_value(st.volume@),
        clean_value(st.skin@),
        forall|i: int| 0 <= i < st.bg_files@.len() ==> clean_path(#[trigger] st.bg_files@[i]@),
        st.resume matches Some(q) ==> clean_value(q.0@) && clean_value(q.1@),
        r.skin_ids == d.skin_ids,
        r.bg_sources.len() == d.bg_sources.len(),
        restored_skin(r.skin_ids, lookup(read_back(st), "skin"@), r.skin_idx as int),
        r.bg_idx == restored_bg(lookup(read_back(st), "bg_idx"@), r.bg_sources.len()),
        r.wallpaper == restored_flag(lookup(read_back(st), "wallpaper"@)),
        r.music_dir == lookup(read_back(st), "music_dir"@),
        r.scanning == r.music_dir is Some,
        match lookup(read_back(st), "last_track"@) {
            Some(p) => r.pending_resume matches Some((q, _)) && q == p,
            None => r.pending_resume is None,
        },
    ensures
        0 <= r.skin_idx < r.skin_ids.len(),
        r.skin_ids[r.skin_idx as int] == d.skin_ids[d.skin_idx as int],
        (forall|a: int, b: int| 0 <= a < b < d.skin_ids.len() ==> d.skin_ids[a] != d.skin_ids[b]) ==> r.skin_idx
            == d.skin_idx,
        r.bg_idx == d.bg_idx,
        r.wallpaper == d.wallpaper,
        r.music_dir == d.music_dir,
        r.scanning == d.music_dir is Some,
        match d.current {
            Some((a, t)) => r.pending_resume matches Some((q, _)) && q
                == d.library[a as int].tracks@[t as int].path@,
            None => r.pending_resume is None,
        },
{
    lemma_state_roundtrip(st);
    lemma_parse_decimal(d.bg_idx as nat);
    reveal_strlit("true");
    reveal_strlit("false");
    let k = r.skin_idx as int;
    let id = d.skin_ids[d.skin_idx as int];
    assert(lookup(read_back(st), "skin"@) == Some(id));
    assert(0 <= d.skin_idx < d.skin_ids.len() && d.skin_ids[d.skin_idx as int] == id);
    assert(r.skin_ids[k] == id);
    if forall|a: int, b: int| 0 <= a < b < d.skin_ids.len() ==> d.skin_ids[a] != d.skin_ids[b] {
        if k < d.skin_idx {
            assert(d.skin_ids[k] != d.skin_ids[d.skin_idx as int]);
        } else if k > d.skin_idx {
            assert(d.skin_ids[d.skin_idx as int] != d.skin_ids[k]);
        }
    }
    if !d.wallpaper {
        assert(flag_text(false) != "true"@);
    }
}

/// The label is painted when a track loads, not every frame: a tick of a
/// deck that is not finishing an animation asks for no painting.
pub proof fn lemma_label_not_per_frame(d: DeckView, now: u64)
    requires
        !(d.screen is Loading || d.screen is CaseOpen),
    ensures
        forall|i: int|
            0 <= i < deck_next(d, Message::Tick, now).1.len() ==> !(#[trigger] deck_next(d, Message::Tick, now).1[i] is RenderLabel),
{
    reveal(deck_step);
}

/// A wind tick moves the tape in the direction of the held key, twelve
/// times as far as play would in the time since the last tick, and never
/// past either end of the track: with `dt` the milliseconds since the last
/// tick, the position becomes `position + dt * 12 * dir`, held within
/// `0..=duration`. So REW (a negative direction) never moves the tape
/// forward and FF never moves it back; the spools whirl the same way, the
/// tick's interval is kept, and nothing else about the deck changes.
pub proof fn lemma_wind_tick_follows_key(d: DeckView, now: u64)
    requires
        deck_wf(d),
        !(d.screen is Loading || d.screen is CaseOpen),
        d.wind is Some,
        duration_ms(d) > 0,
        now >= d.last_tick_ms,
    ensures
        ({
            let dir = d.wind->0;
            let total = duration_ms(d) as int;
            let dt = now - d.last_tick_ms;
            let raw = d.position_ms + dt * 12 * dir;
            let (d1, fx) = deck_next(d, Message::Tick, now);
            &&& d1.position_ms == if raw < 0 {
                0
            } else if raw > total {
                total
            } else {
                raw
            }
            &&& dir < 0 ==> d1.position_ms <= d.position_ms
            &&& dir > 0 && d.position_ms <= total ==> d1.position_ms >= d.position_ms
            &&& dir > 0 && dt > 0 && d.position_ms < total ==> d1.position_ms > d.position_ms
            &&& dir < 0 && dt > 0 && d.position_ms > 0 ==> d1.position_ms < d.position_ms
            &&& d1.last_tick_ms == now
            &&& d1.tick_dt_ms == dt
            &&& d1 == DeckView { position_ms: d1.position_ms, last_tick_ms: now, tick_dt_ms: dt as u64, ..d }
            &&& fx == seq![Effect::Spin { dir: dir, fast: true }]
        }),
{
    reveal(deck_step);
    let dir = d.wind->0;
    let dt = now - d.last_tick_ms;
    assert(dir < 0 ==> dt * 12 * dir <= 0) by (nonlinear_arith)
        requires
            dt >= 0,
    ;
    assert(dir > 0 ==> dt * 12 * dir >= 0) by (nonlinear_arith)
        requires
            dt >= 0,
    ;
    assert(dt > 0 && dir != 0 ==> dt * 12 * dir != 0) by (nonlinear_arith)
        requires
            dt >= 0,
    ;
}

/// Dragging the progress slider to the fraction `ppm` (in millionths, more
/// than a million counting as the end) puts the tape at that fraction of the
/// loaded track and tells the audio thread to seek there, whether the deck
/// is playing, paused or stopped; nothing else changes. With no track (or
/// one of no length) the slider does nothing.
pub proof fn lemma_seek_goes_to_fraction(d: DeckView, ppm: u32, now: u64)
    requires
        deck_wf(d),
    ensures
        ({
            let total = duration_ms(d) as int;
            let f: int = if ppm > 1_000_000 {
                1_000_000
            } else {
                ppm as int
            };
            let target = (total * f / 1_000_000) as u64;
            let (d1, fx) = deck_next(d, Message::Seek(ppm), now);
            &&& total > 0 ==> d1 == DeckView { position_ms: target, ..d } && fx == seq![
                Effect::Audio(AudioCmd::Seek(target)),
            ]
            &&& total > 0 ==> 0 <= target <= total
            &&& total > 0 && ppm >= 1_000_000 ==> target == total
            &&& ppm == 0 ==> d1.position_ms == 0 || total == 0
            &&& total == 0 ==> d1 == d && fx.len() == 0
        }),
{
    reveal(deck_step);
    let total = duration_ms(d) as int;
    let f: int = if ppm > 1_000_000 {
        1_000_000
    } else {
        ppm as int
    };
    assert(0 <= total * f / 1_000_000 <= total) by (nonlinear_arith)
        requires
            0 <= f <= 1_000_000,
            total >= 0,
    ;
    assert(f == 1_000_000 ==> total * f / 1_000_000 == total) by (nonlinear_arith);
    assert(f == 0 ==> total * f / 1_000_000 == 0) by (nonlinear_arith);
}

/// Whether `d1` and `fx` are a deck that has just loaded track `t` of album
/// `a` of `d`'s library and started it: that tape in the deck at its start,
/// playing, on the player, and the audio thread told to load its file first.
pub open spec fn started_track(d: DeckView, d1: DeckView, fx: Seq<Effect>, a: int, t: int) -> bool {
    &&& d1.current == Some((a as usize, t as usize))
    &&& d1.position_ms == 0
    &&& d1.playing
    &&& !d1.stopped
    &&& d1.screen == Screen::Player
    &&& d1.library == d.library
    &&& fx.len() == 5
    &&& fx[0] == Effect::Audio(AudioCmd::Load(d.library[a].tracks@[t].path))
    &&& fx[3] == Effect::Mpris(MprisUpdate::Playing)
    &&& fx[4] == Effect::SaveState(0)
}

/// The cassette-load animation lasts 850 ms and the case-open animation
/// 1600 ms: a tick before the end changes nothing but the tick time, a tick
/// at or after it seats the tape with a clunk and starts the chosen track.
pub proof fn lemma_tick_ends_animation(d: DeckView, now: u64)
    requires
        deck_wf(d),
        d.screen is Loading || d.screen is CaseOpen,
    ensures
        ({
            let (album, track, started, length) = match d.screen {
                Screen::Loading { album, track, started_ms } => (album, track, started_ms, 850int),
                Screen::CaseOpen { album, track, started_ms } => (album, track, started_ms, 1600int),
                _ => (0usize, 0usize, 0u64, 0int),
            };
            let (d1, fx) = deck_next(d, Message::Tick, now);
            &&& now >= started + length && has_track(d.library, album as int, track as int) ==> {
                &&& fx.len() == 6
                &&& fx[0] == Effect::Audio(AudioCmd::Sfx(Sfx::TapeSeat))
                &&& started_track(d, d1, fx.skip(1), album as int, track as int)
            }
            &&& now < started + length ==> d1 == DeckView { last_tick_ms: now, ..d } && fx.len() == 0
        }),
{
    reveal(deck_step);
    let (d1, fx) = deck_next(d, Message::Tick, now);
    assert(fx.skip(1) =~= fx.subrange(1, fx.len() as int));
}

/// A tick of a deck that is neither animating nor winding only notes the
/// time and asks for the audio status.
pub proof fn lemma_tick_polls(d: DeckView, now: u64)
    requires
        !(d.screen is Loading || d.screen is CaseOpen),
        d.wind is None,
    ensures
        deck_next(d, Message::Tick, now) == (
            DeckView {
                last_tick_ms: now,
                tick_dt_ms: if now >= d.last_tick_ms {
                    (now - d.last_tick_ms) as u64
                } else {
                    0
                },
                ..d
            },
            seq![Effect::PollStatus],
        ),
{
    reveal(deck_step);
}

/// Seeking by `delta` milliseconds moves a running tape by that much, held
/// within the track, and tells the audio thread; a stopped deck, or one with
/// no track, ignores it.
pub proof fn lemma_seek_by_moves(d: DeckView, delta: i64, now: u64)
    requires
        deck_wf(d),
    ensures
        ({
            let total = duration_ms(d) as int;
            let raw = d.position_ms + delta;
            let target: int = if raw < 0 {
                0
            } else if raw > total {
                total
            } else {
                raw
            };
            let (d1, fx) = deck_next(d, Message::SeekBy(delta), now);
            &&& total > 0 && !d.stopped ==> d1 == DeckView { position_ms: target as u64, ..d } && fx == seq![
                Effect::Audio(AudioCmd::Seek(target as u64)),
            ]
            &&& total > 0 && !d.stopped && delta >= 0 && d.position_ms <= total ==> d1.position_ms
                >= d.position_ms
            &&& total > 0 && !d.stopped && delta <= 0 ==> d1.position_ms <= d.position_ms
            &&& (total == 0 || d.stopped) ==> d1 == d && fx.len() == 0
        }),
{
    reveal(deck_step);
}

/// Play/pause on a running tape flips between playing and paused, with a
/// key click, the matching audio command and media state, and a save; on a
/// stopped tape it starts the tape again from its start; with no tape only
/// the key clicks.
pub proof fn lemma_toggle_play(d: DeckView, now: u64)
    requires
        deck_wf(d),
    ensures
        ({
            let key = Effect::Audio(AudioCmd::Sfx(Sfx::KeyPress));
            let (d1, fx) = deck_next(d, Message::TogglePlay, now);
            &&& d.current is None ==> d1 == d && fx == seq![key]
            &&& d.current is Some && !d.stopped && d.playing ==> d1 == DeckView { playing: false, ..d } && fx
                == seq![
                key,
                Effect::Audio(AudioCmd::Pause),
                Effect::Mpris(MprisUpdate::Paused),
                Effect::SaveState(d.position_ms),
            ]
            &&& d.current is Some && !d.stopped && !d.playing ==> d1 == DeckView { playing: true, ..d } && fx
                == seq![
                key,
                Effect::Audio(AudioCmd::Resume),
                Effect::Mpris(MprisUpdate::Playing),
                Effect::SaveState(d.position_ms),
            ]
            &&& d.stopped ==> (d.current matches Some((a, t)) ==> fx[0] == key && started_track(
                d,
                d1,
                fx.skip(1),
                a as int,
                t as int,
            ))
        }),
{
    reveal(deck_step);
    let (d1, fx) = deck_next(d, Message::TogglePlay, now);
    assert(fx.skip(1) =~= fx.subrange(1, fx.len() as int));
}

/// Stop keeps the tape in the deck, rewound and stopped, with a key click,
/// the stop command, the stopped media state and a save at position zero.
pub proof fn lemma_stop_rewinds(d: DeckView, now: u64)
    ensures
        deck_next(d, Message::Stop, now) == (
            DeckView { playing: false, stopped: true, position_ms: 0, ..d },
            seq![
                Effect::Audio(AudioCmd::Sfx(Sfx::KeyPress)),
                Effect::Audio(AudioCmd::Stop),
                Effect::Mpris(MprisUpdate::Stopped),
                Effect::SaveState(0),
            ],
        ),
{
    reveal(deck_step);
}

/// Next and Previous within an album start the neighbouring track; Previous
/// on an album's first track goes to the previous album's last track, and
/// on the very first track of the shelf restarts it; Next on an album's
/// last track goes to the next album's first.
pub proof fn lemma_next_prev_tracks(d: DeckView, now: u64)
    requires
        deck_wf(d),
        deck_sized(d),
        d.current is Some,
    ensures
        ({
            let (a, t) = d.current->0;
            let len = d.library[a as int].tracks@.len();
            let (n1, nfx) = deck_next(d, Message::Next, now);
            let (p1, pfx) = deck_next(d, Message::Prev, now);
            &&& t + 1 < len ==> started_track(d, n1, nfx, a as int, t + 1)
            &&& t + 1 == len && a + 1 < d.library.len() && d.library[a + 1].tracks@.len() > 0 ==> started_track(
                d,
                n1,
                nfx,
                a + 1,
                0,
            )
            &&& t > 0 ==> started_track(d, p1, pfx, a as int, t - 1)
            &&& t == 0 && a > 0 && d.library[a - 1].tracks@.len() > 0 ==> started_track(
                d,
                p1,
                pfx,
                a - 1,
                d.library[a - 1].tracks@.len() - 1,
            )
            &&& t == 0 && a == 0 ==> started_track(d, p1, pfx, 0, 0)
            &&& n1.skip_anim == Some((1i8, 350u64)) || n1.stopped
            &&& p1.skip_anim == Some((-1i8, 350u64))
        }),
{
    reveal(deck_step);
}

/// The audio thread's status, when no track finished: the deck's position
/// and play state become the reported ones and a reported error becomes the
/// notice; a playing deck turns its spools forward at play speed (a skip
/// burst whirls fast first, counting down by the last tick's interval), and
/// saves its state when five seconds have passed since the last save.
pub proof fn lemma_status_followed(d: DeckView, st: SharedStatus, now: u64)
    requires
        !st.track_finished,
    ensures
        ({
            let (d1, fx) = deck_next(d, Message::StatusPolled(st), now);
            let due = st.playing && d.last_tick_ms >= d.last_save_ms && d.last_tick_ms - d.last_save_ms >= 5000;
            &&& d1.position_ms == st.position_ms
            &&& d1.playing == st.playing
            &&& d1.notice == match st.error {
                Some(e) => Some(e@),
                None => d.notice,
            }
            &&& d1.current == d.current && d1.screen == d.screen && d1.library == d.library
            &&& d1.last_save_ms == if due {
                d.last_tick_ms
            } else {
                d.last_save_ms
            }
            &&& due ==> fx.last() == Effect::SaveState(st.position_ms)
            &&& !due ==> forall|k: int| 0 <= k < fx.len() ==> !(#[trigger] fx[k] is SaveState)
            &&& d.skip_anim matches Some((dir, left)) ==> fx[0] == Effect::Spin { dir: dir, fast: true }
                && d1.skip_anim == if left > d.tick_dt_ms {
                Some((dir, (left - d.tick_dt_ms) as u64))
            } else {
                None
            }
            &&& d.skip_anim is None && st.playing ==> fx[0] == Effect::Spin { dir: 1, fast: false }
            &&& d.skip_anim is None && !st.playing ==> fx.len() == 0 || fx == seq![
                Effect::SaveState(st.position_ms),
            ]
        }),
{
    reveal(deck_step);
}

/// Moving between screens: Eject (show the rack) centres the fan on the
/// loaded album; a click on the label opens the loaded album's screen (and
/// does nothing with no tape); choosing an album opens its screen; closing
/// it returns to the rack; none of these touches the tape.
pub proof fn lemma_screens_navigate(d: DeckView, i: usize, now: u64)
    requires
        deck_wf(d),
    ensures
        ({
            let r = deck_next(d, Message::ShowRack, now).0;
            let l = deck_next(d, Message::LabelClicked, now).0;
            let s = deck_next(d, Message::AlbumSelected(i), now).0;
            let c = deck_next(d, Message::CloseReveal, now).0;
            &&& r.screen == Screen::Rack && r.current == d.current && r.playing == d.playing
            &&& d.current matches Some((a, _)) ==> r.browse_index == a && l == DeckView { screen: Screen::Reveal(a), ..d }
            &&& d.current is None ==> r.browse_index == d.browse_index && l == d
            &&& s == DeckView { screen: Screen::Reveal(i), ..d }
            &&& c == DeckView { screen: Screen::Rack, ..d }
        }),
{
    reveal(deck_step);
}

/// The Walkman button moves to the next colour skin, wrapping after the
/// last, repaints the loaded tape's label for the new skin, and saves; the
/// backdrop button does the same for the room background.
pub proof fn lemma_cycle_skin_and_backdrop(d: DeckView, now: u64)
    requires
        deck_wf(d),
        d.skin_ids.len() <= usize::MAX,
        d.bg_sources.len() <= usize::MAX,
    ensures
        ({
            let (k, kfx) = deck_next(d, Message::CycleSkin, now);
            let (b, bfx) = deck_next(d, Message::CycleBackground, now);
            &&& d.skin_idx + 1 < d.skin_ids.len() ==> k.skin_idx == d.skin_idx + 1
            &&& d.skin_idx + 1 == d.skin_ids.len() ==> k.skin_idx == 0
            &&& k == DeckView { skin_idx: k.skin_idx, ..d }
            &&& kfx.last() == Effect::SaveState(d.position_ms)
            &&& d.current matches Some((a, t)) ==> kfx[0] == Effect::RenderLabel {
                song: d.library[a as int].tracks@[t as int].title,
                album: d.library[a as int].title,
            }
            &&& d.bg_idx + 1 < d.bg_sources.len() ==> b.bg_idx == d.bg_idx + 1
            &&& d.bg_idx + 1 == d.bg_sources.len() ==> b.bg_idx == 0
            &&& b == DeckView { bg_idx: b.bg_idx, ..d }
            &&& bfx == seq![Effect::SaveState(d.position_ms)]
        }),
{
    reveal(deck_step);
    let n = d.skin_ids.len() as int;
    let m = d.bg_sources.len() as int;
    let x = d.skin_idx + 1;
    let y = d.bg_idx + 1;
    assert(x < n ==> x % n == x) by (nonlinear_arith)
        requires
            0 <= x,
    ;
    assert(y < m ==> y % m == y) by (nonlinear_arith)
        requires
            0 <= y,
    ;
    assert(x == n ==> x % n == 0) by (nonlinear_arith)
        requires
            0 < x,
    ;
    assert(y == m ==> y % m == 0) by (nonlinear_arith)
        requires
            0 < y,
    ;
}

/// The wallpaper button turns the album-cover wallpaper on when it is off
/// and off when it is on, and saves the choice; nothing else changes.
pub proof fn lemma_wallpaper_toggles(d: DeckView, now: u64)
    ensures
        deck_next(d, Message::ToggleWallpaper, now) == (
            DeckView { wallpaper: !d.wallpaper, ..d },
            seq![Effect::SaveState(d.position_ms)],
        ),
        deck_next(deck_next(d, Message::ToggleWallpaper, now).0, Message::ToggleWallpaper, now).0 == d,
{
    reveal(deck_step);
}

/// The fan browser steps through the shelf, wrapping past either end: one
/// step right from the last album comes to the first, one step left from the
/// first comes to the last, and a step within the shelf moves by one. It
/// moves only on the rack, and only when there are albums.
pub proof fn lemma_browse_wraps(d: DeckView, now: u64)
    requires
        deck_wf(d),
        deck_sized(d),
    ensures
        ({
            let n = d.library.len() as int;
            let b = d.browse_index as int;
            let (r, rfx) = deck_next(d, Message::BrowseStep(1i32), now);
            let (l, lfx) = deck_next(d, Message::BrowseStep(-1i32), now);
            &&& d.screen == Screen::Rack && n > 0 ==> {
                &&& r.browse_index == if b + 1 < n {
                    b + 1
                } else {
                    0
                }
                &&& l.browse_index == if b > 0 {
                    b - 1
                } else {
                    n - 1
                }
                &&& r == DeckView { browse_index: r.browse_index, ..d } && rfx == seq![Effect::RebuildFan]
                &&& l == DeckView { browse_index: l.browse_index, ..d } && lfx == seq![Effect::RebuildFan]
            }
            &&& !(d.screen == Screen::Rack && n > 0) ==> r == d && rfx.len() == 0 && l == d && lfx.len() == 0
        }),
{
    reveal(deck_step);
    let n = d.library.len() as int;
    let b = d.browse_index as int;
    if d.screen == Screen::Rack && n > 0 {
        assert(0 <= b < n);
        assert(b + 1 < n ==> (b + 1) % n == b + 1) by (nonlinear_arith)
            requires
                0 <= b,
        ;
        assert(b + 1 == n ==> (b + 1) % n == 0) by (nonlinear_arith)
            requires
                0 <= b,
        ;
        assert(b > 0 ==> (b - 1) % n == b - 1) by (nonlinear_arith)
            requires
                b < n,
        ;
        assert(b == 0 ==> (b - 1) % n == n - 1) by (nonlinear_arith)
            requires
                n > 0,
        ;
    }
}

/// Adding a background appends the picked image and shows it; removing one
/// drops the shown background when the user added it (showing its
/// neighbour, or the last one when it was last), and refuses with a notice
/// when it is a built-in one.
pub proof fn lemma_backgrounds_added_and_removed(d: DeckView, path: String, now: u64)
    requires
        deck_wf(d),
        d.bg_sources.len() <= usize::MAX,
    ensures
        ({
            let (a, afx) = deck_next(d, Message::BackgroundAdded(path), now);
            let (r, rfx) = deck_next(d, Message::RemoveBackground, now);
            let i = d.bg_idx as int;
            &&& a.bg_sources == d.bg_sources.push(Some(path@))
            &&& a.bg_idx == d.bg_sources.len()
            &&& afx == seq![Effect::SaveState(d.position_ms)]
            &&& d.bg_sources[i] is Some ==> {
                &&& r.bg_sources == d.bg_sources.remove(i)
                &&& r.bg_idx == if i < d.bg_sources.len() - 1 {
                    i
                } else {
                    d.bg_sources.len() - 2
                }
                &&& rfx == seq![Effect::DropBackground(d.bg_idx), Effect::SaveState(d.position_ms)]
            }
            &&& d.bg_sources[i] is None ==> r == DeckView { notice: r.notice, ..d } && r.notice is Some && rfx.len()
                == 0
        }),
{
    reveal(deck_step);
}

/// A media key maps onto the deck's own keys: play/pause toggles, stop
/// stops, next and previous step; play only starts a paused deck and pause
/// only pauses a playing one.
pub proof fn lemma_media_keys(d: DeckView, now: u64)
    ensures
        deck_next(d, Message::Mpris(MprisCmd::PlayPause), now) == deck_next(d, Message::TogglePlay, now),
        deck_next(d, Message::Mpris(MprisCmd::Stop), now) == deck_next(d, Message::Stop, now),
        deck_next(d, Message::Mpris(MprisCmd::Next), now) == deck_next(d, Message::Next, now),
        deck_next(d, Message::Mpris(MprisCmd::Prev), now) == deck_next(d, Message::Prev, now),
        !d.playing ==> deck_next(d, Message::Mpris(MprisCmd::Play), now) == deck_next(d, Message::TogglePlay, now),
        d.playing ==> deck_next(d, Message::Mpris(MprisCmd::Pause), now) == deck_next(d, Message::TogglePlay, now),
{
}

/// Choosing a song starts the cassette-load animation, and clicking the case
/// starts the case-open animation, both timed from now; choosing a music
/// folder remembers it, saves and scans it; cancelling the choice changes
/// nothing.
pub proof fn lemma_choices_start_work(d: DeckView, album: usize, track: usize, dir: String, now: u64)
    ensures
        deck_next(d, Message::PlayTrack { album, track }, now) == (
            DeckView { screen: Screen::Loading { album, track, started_ms: now }, ..d },
            Seq::<Effect>::empty(),
        ),
        deck_next(d, Message::OpenCase { album, track }, now) == (
            DeckView { screen: Screen::CaseOpen { album, track, started_ms: now }, ..d },
            Seq::<Effect>::empty(),
        ),
        deck_next(d, Message::FolderChosen(Some(dir)), now) == (
            DeckView { music_dir: Some(dir@), scanning: true, ..d },
            seq![Effect::SaveState(d.position_ms), Effect::Scan(dir)],
        ),
        deck_next(d, Message::FolderChosen(None), now) == (d, Seq::<Effect>::empty()),
        deck_next(d, Message::OpenFolder, now) == (d, seq![Effect::PickFolder]),
{
    reveal(deck_step);
}

} // verus!
