use cosmic_cassette_deck::deck::{
    AudioCmd, Deck, Effect, Message, MprisCmd, MprisUpdate, Screen, Sfx, SharedStatus, SinkProbe,
};
use cosmic_cassette_deck::library::{Album, Track};

fn s(x: &str) -> String {
    x.to_string()
}

fn track(title: &str, path: &str, ms: u64, n: u32) -> Track {
    Track { title: s(title), path: s(path), duration_ms: ms, number: n }
}

fn shelf() -> Vec<Album> {
    vec![
        Album {
            title: s("Holy Diver"),
            artist: s("Dio"),
            art: None,
            tracks: vec![track("Stand Up", "/m/d1", 10_000, 1), track("Holy Diver", "/m/d2", 20_000, 2)],
        },
        Album {
            title: s("Piece of Mind"),
            artist: s("Iron Maiden"),
            art: Some(vec![1]),
            tracks: vec![track("Where Eagles Dare", "/m/i1", 30_000, 1), track("The Trooper", "/m/i2", 40_000, 2)],
        },
    ]
}

fn fresh(resume: Option<(String, u64)>) -> Deck {
    Deck::new(vec![s("belt"), s("red"), s("blue")], Some(s("red")), vec![None, None, None], Some(s("1")), None, None, resume, 0)
}

fn loaded() -> Deck {
    let mut d = fresh(None);
    d.update(Message::LibraryLoaded { albums: shelf(), skipped: 0 }, 0);
    d
}

fn playing(a: usize, t: usize) -> Deck {
    let mut d = loaded();
    d.update(Message::PlayTrack { album: a, track: t }, 10);
    d.update(Message::Tick, 900);
    d
}

fn load_effects(path: &str, title: &str, album: &str, artist: &str, ms: u64) -> Vec<Effect> {
    vec![
        Effect::Audio(AudioCmd::Load(s(path))),
        Effect::RenderLabel { song: s(title), album: s(album) },
        Effect::Mpris(MprisUpdate::Metadata { title: s(title), artist: s(artist), album: s(album), length_ms: ms }),
        Effect::Mpris(MprisUpdate::Playing),
        Effect::SaveState(0),
    ]
}

#[test]
fn new_deck_restores_skin_and_background() {
    let d = fresh(None);
    assert_eq!(d.skin_idx, 1);
    assert_eq!(d.bg_idx, 1);
    assert_eq!(d.screen, Screen::Rack);
    assert!(!d.wants_ticks());
    let other = Deck::new(vec![s("belt")], Some(s("gold")), vec![None], Some(s("7")), None, None, None, 0);
    assert_eq!(other.skin_idx, 0);
    assert_eq!(other.bg_idx, 0);
}

#[test]
fn library_load_resets_the_deck() {
    let mut d = fresh(None);
    let fx = d.update(Message::LibraryLoaded { albums: shelf(), skipped: 0 }, 5);
    assert_eq!(fx, vec![Effect::Audio(AudioCmd::Stop), Effect::ClearLabel, Effect::RebuildFan, Effect::StartArtScrape]);
    assert_eq!(d.current, None);
    assert_eq!(d.notice, None);
    assert_eq!(d.browse_index, 0);
    let mut e = fresh(None);
    e.update(Message::LibraryLoaded { albums: shelf(), skipped: 2 }, 5);
    assert_eq!(e.notice, Some(s("Skipped 2 unreadable file(s) during scan")));
}

#[test]
fn library_load_resumes_the_last_tape_paused() {
    let mut d = fresh(Some((s("/m/d2"), 5_000)));
    let fx = d.update(Message::LibraryLoaded { albums: shelf(), skipped: 0 }, 5);
    let mut want = vec![Effect::Audio(AudioCmd::Stop), Effect::ClearLabel];
    want.extend(load_effects("/m/d2", "Holy Diver", "Holy Diver", "Dio", 20_000));
    want.extend(vec![
        Effect::Audio(AudioCmd::Pause),
        Effect::Audio(AudioCmd::Seek(5_000)),
        Effect::Mpris(MprisUpdate::Paused),
        Effect::RebuildFan,
        Effect::StartArtScrape,
    ]);
    assert_eq!(fx, want);
    assert_eq!(d.current, Some((0, 1)));
    assert_eq!(d.position_ms, 5_000);
    assert!(!d.playing);
    assert_eq!(d.screen, Screen::Rack);
    assert_eq!(d.pending_resume, None);
}

#[test]
fn missing_resume_track_is_ignored() {
    let mut d = fresh(Some((s("/gone"), 5_000)));
    d.update(Message::LibraryLoaded { albums: shelf(), skipped: 0 }, 5);
    assert_eq!(d.current, None);
}

#[test]
fn load_animation_then_play() {
    let mut d = loaded();
    assert_eq!(d.update(Message::PlayTrack { album: 1, track: 0 }, 100), vec![]);
    assert_eq!(d.screen, Screen::Loading { album: 1, track: 0, started_ms: 100 });
    assert!(d.wants_ticks());
    assert_eq!(d.update(Message::Tick, 500), vec![]);
    let fx = d.update(Message::Tick, 950);
    let mut want = vec![Effect::Audio(AudioCmd::Sfx(Sfx::TapeSeat))];
    want.extend(load_effects("/m/i1", "Where Eagles Dare", "Piece of Mind", "Iron Maiden", 30_000));
    assert_eq!(fx, want);
    assert_eq!(d.screen, Screen::Player);
    assert_eq!(d.current, Some((1, 0)));
    assert!(d.playing);
}

#[test]
fn case_open_animation_takes_longer() {
    let mut d = loaded();
    d.update(Message::OpenCase { album: 0, track: 1 }, 0);
    assert_eq!(d.update(Message::Tick, 1000), vec![]);
    let fx = d.update(Message::Tick, 1600);
    assert_eq!(fx[0], Effect::Audio(AudioCmd::Sfx(Sfx::TapeSeat)));
    assert_eq!(d.current, Some((0, 1)));
}

#[test]
fn next_crosses_albums_and_prev_comes_back() {
    let mut d = playing(0, 1);
    let fx = d.update(Message::Next, 1000);
    assert_eq!(fx, load_effects("/m/i1", "Where Eagles Dare", "Piece of Mind", "Iron Maiden", 30_000));
    assert_eq!(d.current, Some((1, 0)));
    assert_eq!(d.skip_anim, Some((1, 350)));
    d.update(Message::Prev, 1100);
    assert_eq!(d.current, Some((0, 1)));
    assert_eq!(d.skip_anim, Some((-1, 350)));
}

#[test]
fn prev_at_the_first_track_restarts_it() {
    let mut d = playing(0, 0);
    d.update(Message::Prev, 1000);
    assert_eq!(d.current, Some((0, 0)));
    assert_eq!(d.position_ms, 0);
}

#[test]
fn next_at_the_end_of_the_shelf_stops() {
    let mut d = playing(1, 1);
    let fx = d.update(Message::Next, 1000);
    assert_eq!(fx, vec![Effect::Audio(AudioCmd::Stop), Effect::Mpris(MprisUpdate::Stopped)]);
    assert!(d.stopped && !d.playing);
    assert_eq!(d.current, Some((1, 1)));
}

#[test]
fn play_after_stop_reloads_the_tape() {
    let mut d = playing(1, 0);
    let fx = d.update(Message::Stop, 1000);
    assert_eq!(fx, vec![
        Effect::Audio(AudioCmd::Sfx(Sfx::KeyPress)),
        Effect::Audio(AudioCmd::Stop),
        Effect::Mpris(MprisUpdate::Stopped),
        Effect::SaveState(0),
    ]);
    let fx = d.update(Message::TogglePlay, 1100);
    let mut want = vec![Effect::Audio(AudioCmd::Sfx(Sfx::KeyPress))];
    want.extend(load_effects("/m/i1", "Where Eagles Dare", "Piece of Mind", "Iron Maiden", 30_000));
    assert_eq!(fx, want);
    assert!(d.playing && !d.stopped);
}

#[test]
fn toggle_pauses_and_resumes() {
    let mut d = playing(0, 0);
    d.position_ms = 1234;
    let fx = d.update(Message::TogglePlay, 1000);
    assert_eq!(fx, vec![
        Effect::Audio(AudioCmd::Sfx(Sfx::KeyPress)),
        Effect::Audio(AudioCmd::Pause),
        Effect::Mpris(MprisUpdate::Paused),
        Effect::SaveState(1234),
    ]);
    assert!(!d.playing);
    d.update(Message::TogglePlay, 1100);
    assert!(d.playing);
    let mut empty = loaded();
    assert_eq!(empty.update(Message::TogglePlay, 0), vec![Effect::Audio(AudioCmd::Sfx(Sfx::KeyPress))]);
}

#[test]
fn seeking_stays_within_the_track() {
    let mut d = playing(0, 0);
    assert_eq!(d.update(Message::Seek(500_000), 1000), vec![Effect::Audio(AudioCmd::Seek(5_000))]);
    d.update(Message::Seek(2_000_000), 1000);
    assert_eq!(d.position_ms, 10_000);
    d.update(Message::SeekBy(-20_000), 1000);
    assert_eq!(d.position_ms, 0);
    d.update(Message::SeekBy(2_500), 1000);
    assert_eq!(d.position_ms, 2_500);
    d.update(Message::Stop, 1000);
    assert_eq!(d.update(Message::SeekBy(1_000), 1000), vec![]);
    let mut empty = loaded();
    assert_eq!(empty.update(Message::Seek(100), 0), vec![]);
}

#[test]
fn winding_moves_twelve_times_faster_and_resumes() {
    let mut d = playing(0, 1);
    let fx = d.update(Message::WindStart(1), 1000);
    assert_eq!(fx, vec![
        Effect::Audio(AudioCmd::Pause),
        Effect::Audio(AudioCmd::Sfx(Sfx::KeyPress)),
        Effect::Audio(AudioCmd::Wind(true)),
    ]);
    assert_eq!(d.update(Message::WindStart(-1), 1000), vec![]);
    d.last_tick_ms = 1000;
    let fx = d.update(Message::Tick, 1500);
    assert_eq!(fx, vec![Effect::Spin { dir: 1, fast: true }]);
    assert_eq!(d.position_ms, 6_000);
    d.update(Message::Tick, 3500);
    assert_eq!(d.position_ms, 20_000);
    let fx = d.update(Message::WindStop, 3600);
    assert_eq!(fx, vec![
        Effect::Audio(AudioCmd::Wind(false)),
        Effect::Audio(AudioCmd::Seek(20_000)),
        Effect::Audio(AudioCmd::Resume),
        Effect::Mpris(MprisUpdate::Playing),
        Effect::SaveState(20_000),
    ]);
    assert!(d.playing && d.wind.is_none());
}

#[test]
fn funct_toggles_skip_mode_and_ends_a_wind() {
    let mut d = playing(0, 0);
    d.update(Message::TogglePlay, 900);
    d.update(Message::WindStart(-1), 1000);
    let fx = d.update(Message::ToggleSkipMode, 1100);
    assert_eq!(fx, vec![
        Effect::Audio(AudioCmd::Sfx(Sfx::KeyPress)),
        Effect::Audio(AudioCmd::Wind(false)),
        Effect::Audio(AudioCmd::Seek(d.position_ms)),
    ]);
    assert!(d.skip_mode && !d.playing && d.wind.is_none());
}

#[test]
fn status_mirrors_and_finished_track_advances() {
    let mut d = playing(0, 0);
    assert_eq!(d.update(Message::Tick, 1000), vec![Effect::PollStatus]);
    let st = SharedStatus { position_ms: 700, playing: true, track_finished: false, error: Some(s("boom")) };
    let fx = d.update(Message::StatusPolled(st), 1000);
    assert_eq!(fx, vec![Effect::Spin { dir: 1, fast: false }]);
    assert_eq!(d.position_ms, 700);
    assert_eq!(d.notice, Some(s("boom")));
    let done = SharedStatus { position_ms: 10_000, playing: false, track_finished: true, error: None };
    let fx = d.update(Message::StatusPolled(done), 1100);
    let mut want = vec![Effect::Audio(AudioCmd::Sfx(Sfx::EndClack))];
    want.extend(load_effects("/m/d2", "Holy Diver", "Holy Diver", "Dio", 20_000));
    assert_eq!(fx, want);
    assert_eq!(d.current, Some((0, 1)));
}

#[test]
fn playing_deck_saves_every_five_seconds() {
    let mut d = playing(0, 0);
    d.last_save_ms = 0;
    d.update(Message::Tick, 6000);
    let st = SharedStatus { position_ms: 4_000, playing: true, track_finished: false, error: None };
    let fx = d.update(Message::StatusPolled(st), 6000);
    assert_eq!(fx, vec![Effect::Spin { dir: 1, fast: false }, Effect::SaveState(4_000)]);
    assert_eq!(d.last_save_ms, 6000);
}

#[test]
fn skip_burst_counts_down() {
    let mut d = playing(0, 0);
    d.update(Message::Next, 1000);
    d.last_tick_ms = 1000;
    d.update(Message::Tick, 1200);
    let st = SharedStatus { position_ms: 0, playing: true, track_finished: false, error: None };
    let fx = d.update(Message::StatusPolled(st), 1200);
    assert_eq!(fx[0], Effect::Spin { dir: 1, fast: true });
    assert_eq!(d.skip_anim, Some((1, 150)));
    d.update(Message::Tick, 1400);
    let st = SharedStatus { position_ms: 0, playing: true, track_finished: false, error: None };
    d.update(Message::StatusPolled(st), 1400);
    assert_eq!(d.skip_anim, None);
}

#[test]
fn browsing_wraps_around_the_shelf() {
    let mut d = loaded();
    assert_eq!(d.update(Message::BrowseStep(-1), 0), vec![Effect::RebuildFan]);
    assert_eq!(d.browse_index, 1);
    d.update(Message::BrowseStep(1), 0);
    assert_eq!(d.browse_index, 0);
    d.update(Message::BrowseStep(5), 0);
    assert_eq!(d.browse_index, 1);
    d.update(Message::AlbumSelected(1), 0);
    assert_eq!(d.update(Message::BrowseStep(1), 0), vec![]);
    assert_eq!(d.browse_index, 1);
}

#[test]
fn show_rack_jumps_to_the_loaded_album() {
    let mut d = playing(1, 0);
    assert_eq!(d.update(Message::ShowRack, 1000), vec![Effect::RebuildFan]);
    assert_eq!(d.browse_index, 1);
    assert_eq!(d.screen, Screen::Rack);
    d.update(Message::LabelClicked, 1000);
    assert_eq!(d.screen, Screen::Reveal(1));
    d.update(Message::CloseReveal, 1000);
    assert_eq!(d.screen, Screen::Rack);
}

#[test]
fn backgrounds_add_cycle_and_remove() {
    let mut d = loaded();
    assert_eq!(d.update(Message::BackgroundAdded(s("/bg/a.png")), 0), vec![Effect::SaveState(0)]);
    assert_eq!(d.bg_idx, 3);
    assert_eq!(d.bg_sources.len(), 4);
    d.update(Message::CycleBackground, 0);
    assert_eq!(d.bg_idx, 0);
    assert_eq!(d.update(Message::RemoveBackground, 0), vec![]);
    assert_eq!(d.notice, Some(s("That's a built-in background — it can't be removed. Cycle to an image you added with ＋ Image to remove it.")));
    d.bg_idx = 3;
    assert_eq!(d.update(Message::RemoveBackground, 0), vec![Effect::DropBackground(3), Effect::SaveState(0)]);
    assert_eq!(d.bg_sources.len(), 3);
    assert_eq!(d.bg_idx, 2);
    d.update(Message::BackgroundFailed(s("No such file")), 0);
    assert_eq!(d.notice, Some(s("Couldn't load background: No such file")));
}

#[test]
fn cycling_skins_repaints_the_label() {
    let mut d = playing(0, 0);
    d.skin_idx = 2;
    let fx = d.update(Message::CycleSkin, 1000);
    assert_eq!(d.skin_idx, 0);
    assert_eq!(fx, vec![
        Effect::RenderLabel { song: s("Stand Up"), album: s("Holy Diver") },
        Effect::SaveState(d.position_ms),
    ]);
}

#[test]
fn scraped_cover_finds_its_album() {
    let mut d = loaded();
    assert_eq!(d.update(Message::ArtLoaded(s("Iron Maiden\tPiece of Mind")), 0), vec![Effect::CoverArrived(1), Effect::RebuildFan]);
    assert_eq!(d.update(Message::ArtLoaded(s("Nobody\tNothing")), 0), vec![]);
}

#[test]
fn media_keys_map_to_transport() {
    let mut d = playing(0, 0);
    assert_eq!(d.update(Message::Mpris(MprisCmd::Play), 1000), vec![]);
    let fx = d.update(Message::Mpris(MprisCmd::Pause), 1000);
    assert_eq!(fx[1], Effect::Audio(AudioCmd::Pause));
    assert_eq!(d.update(Message::Mpris(MprisCmd::Pause), 1000), vec![]);
    d.update(Message::Mpris(MprisCmd::Next), 1000);
    assert_eq!(d.current, Some((0, 1)));
    d.update(Message::Mpris(MprisCmd::Stop), 1000);
    assert!(d.stopped);
}

#[test]
fn folder_choice_saves_and_scans() {
    let mut d = fresh(None);
    assert_eq!(d.update(Message::OpenFolder, 0), vec![Effect::PickFolder]);
    assert_eq!(d.update(Message::FolderChosen(Some(s("/music"))), 0), vec![Effect::SaveState(0), Effect::Scan(s("/music"))]);
    assert_eq!(d.music_dir, Some(s("/music")));
    assert!(d.scanning);
    assert_eq!(d.update(Message::FolderChosen(None), 0), vec![]);
}

#[test]
fn saved_state_records_the_session() {
    let mut d = playing(1, 1);
    d.update(Message::BackgroundAdded(s("/bg/x.png")), 1000);
    d.update(Message::FolderChosen(Some(s("/music"))), 1000);
    let st = d.saved_state(s("0.85"), s("12.5"));
    assert_eq!(st.music_dir, Some(s("/music")));
    assert_eq!(st.skin, "red");
    assert_eq!(st.bg_idx, 3);
    assert_eq!(st.bg_files, vec![s("/bg/x.png")]);
    assert_eq!(st.resume, Some((s("/m/i2"), s("12.5"))));
    assert_eq!(st.volume, "0.85");
}

#[test]
fn audio_status_reports_a_finish_once() {
    let mut st = SharedStatus::default();
    st.started();
    assert!(st.playing && st.position_ms == 0);
    let loaded = st.refresh(Some(SinkProbe { position_ms: 900, paused: false, empty: false }), true);
    assert!(loaded && st.playing && st.position_ms == 900 && !st.track_finished);
    let loaded = st.refresh(Some(SinkProbe { position_ms: 1000, paused: false, empty: true }), loaded);
    assert!(!loaded && st.track_finished && !st.playing);
    let seen = st.take_poll();
    assert!(seen.track_finished && !st.track_finished);
    st.refresh(Some(SinkProbe { position_ms: 1000, paused: false, empty: true }), loaded);
    assert!(!st.track_finished);
    st.report(s("no device"));
    let seen = st.take_poll();
    assert_eq!(seen.error, Some(s("no device")));
    assert_eq!(st.error, None);
    st.refresh(None, false);
    assert!(!st.playing);
    st.stopped();
    assert!(!st.playing && st.position_ms == 0);
}

#[test]
fn resume_finds_the_track_by_path_components() {
    let mut d = fresh(Some((s("/m//./d2/"), 5_000)));
    d.update(Message::LibraryLoaded { albums: shelf(), skipped: 0 }, 5);
    assert_eq!(d.current, Some((0, 1)));
    assert_eq!(d.position_ms, 5_000);
}

#[test]
fn wind_tick_uses_this_ticks_interval() {
    let mut d = playing(0, 1);
    d.update(Message::WindStart(1), 1000);
    d.last_tick_ms = 1000;
    d.tick_dt_ms = 7;
    d.update(Message::Tick, 1040);
    assert_eq!(d.tick_dt_ms, 40);
    d.update(Message::Tick, 1100);
    assert_eq!(d.tick_dt_ms, 60);
}

#[test]
fn wallpaper_toggles_and_is_saved() {
    let mut d = playing(0, 0);
    assert!(!d.wallpaper);
    d.position_ms = 1_234;
    assert_eq!(d.update(Message::ToggleWallpaper, 2000), vec![Effect::SaveState(1_234)]);
    assert!(d.wallpaper);
    assert!(d.saved_state(s("1"), s("1.234")).wallpaper);
    d.update(Message::ToggleWallpaper, 2000);
    assert!(!d.wallpaper);
    assert!(!d.saved_state(s("1"), s("1.234")).wallpaper);
}
