use cosmic_cassette_deck::deck::{Deck, Effect, Message, MprisCmd, SharedStatus};
use cosmic_cassette_deck::library::{Album, Track};
use cosmic_cassette_deck::state::{parse_state, render_state, state_get};

fn s(x: &str) -> String {
    x.to_string()
}

fn shelf() -> Vec<Album> {
    let t = |title: &str, path: &str| Track { title: s(title), path: s(path), duration_ms: 9_000, number: 1 };
    vec![
        Album { title: s("A"), artist: s("X"), art: None, tracks: vec![t("a1", "/a1"), t("a2", "/a2")] },
        Album { title: s("B"), artist: s("Y"), art: None, tracks: vec![t("b1", "/b1")] },
        Album { title: s("C"), artist: s("Z"), art: None, tracks: vec![t("c1", "/c1"), t("c2", "/c2")] },
    ]
}

fn deck() -> Deck {
    let mut d = Deck::new(vec![s("belt")], None, vec![None, None], None, None, None, None, 0);
    d.update(Message::LibraryLoaded { albums: shelf(), skipped: 0 }, 0);
    d
}

#[test]
fn browse_step_then_back_returns() {
    for k in [-7i32, -1, 1, 2, 3, 100] {
        let mut d = deck();
        d.browse_index = 2;
        d.update(Message::BrowseStep(k), 0);
        d.update(Message::BrowseStep(-k), 0);
        assert_eq!(d.browse_index, 2);
    }
}

#[test]
fn next_then_prev_returns_everywhere_but_the_end() {
    for (a, t) in [(0usize, 0usize), (0, 1), (1, 0), (2, 0)] {
        let mut d = deck();
        d.update(Message::PlayTrack { album: a, track: t }, 0);
        d.update(Message::Tick, 1000);
        d.update(Message::Next, 1000);
        d.update(Message::Prev, 1000);
        assert_eq!(d.current, Some((a, t)));
    }
}

#[test]
fn toggle_twice_restores_play_state() {
    let mut d = deck();
    d.update(Message::PlayTrack { album: 1, track: 0 }, 0);
    d.update(Message::Tick, 1000);
    let before = d.playing;
    d.update(Message::TogglePlay, 1000);
    d.update(Message::TogglePlay, 1000);
    assert_eq!(d.playing, before);
}

#[test]
fn builtin_backgrounds_survive_every_removal() {
    let mut d = deck();
    d.update(Message::BackgroundAdded(s("/x.png")), 0);
    for i in 0..3 {
        d.bg_idx = i;
        d.update(Message::RemoveBackground, 0);
    }
    assert_eq!(d.bg_sources, vec![None, None]);
}

#[test]
fn media_play_key_is_idle_while_playing() {
    let mut d = deck();
    d.update(Message::PlayTrack { album: 0, track: 0 }, 0);
    d.update(Message::Tick, 1000);
    assert!(d.update(Message::Mpris(MprisCmd::Play), 1000).is_empty());
}

#[test]
fn saved_session_comes_back() {
    let mut d = Deck::new(vec![s("belt"), s("red"), s("blue")], None, vec![None, None, None], None, None, None, None, 0);
    d.update(Message::LibraryLoaded { albums: shelf(), skipped: 0 }, 0);
    d.update(Message::FolderChosen(Some(s("/music"))), 0);
    d.update(Message::CycleSkin, 0);
    d.update(Message::CycleSkin, 0);
    d.update(Message::CycleBackground, 0);
    d.update(Message::ToggleWallpaper, 0);
    d.update(Message::PlayTrack { album: 2, track: 1 }, 0);
    d.update(Message::Tick, 1000);
    let text = render_state(&d.saved_state(s("0.5"), s("42.5")));
    let entries = parse_state(&text);
    let mut back = Deck::new(
        vec![s("belt"), s("red"), s("blue")],
        state_get(&entries, "skin"),
        vec![None, None, None],
        state_get(&entries, "bg_idx"),
        state_get(&entries, "wallpaper"),
        state_get(&entries, "music_dir"),
        state_get(&entries, "last_track").map(|p| (p, 42_500)),
        0,
    );
    assert_eq!(back.skin_idx, 2);
    assert_eq!(back.bg_idx, 1);
    assert_eq!(back.music_dir, Some(s("/music")));
    assert_eq!(back.pending_resume, Some((s("/c2"), 42_500)));
    assert!(back.wallpaper);
    assert!(!back.scanning);
    assert_eq!(state_get(&entries, "last_pos_secs"), Some(s("42.5")));
    let fx = back.startup();
    assert_eq!(fx, vec![Effect::Scan(s("/music"))]);
    assert!(back.scanning);
    assert_eq!(back.skin_idx, 2);
}

#[test]
fn start_without_a_folder_scans_nothing() {
    let mut d = Deck::new(vec![s("belt")], None, vec![None], None, Some(s("false")), None, None, 0);
    assert!(!d.wallpaper);
    assert!(d.startup().is_empty());
    assert!(!d.scanning);
    let on = Deck::new(vec![s("belt")], None, vec![None], None, Some(s("true")), None, None, 0);
    assert!(on.wallpaper);
    let odd = Deck::new(vec![s("belt")], None, vec![None], None, Some(s("yes")), None, None, 0);
    assert!(!odd.wallpaper);
}

#[test]
fn finished_album_rolls_on_to_the_next_cassette() {
    let mut d = deck();
    d.update(Message::PlayTrack { album: 0, track: 1 }, 0);
    d.update(Message::Tick, 1000);
    d.update(Message::Tick, 1016);
    let done = SharedStatus { position_ms: 9_000, playing: false, track_finished: true, error: None };
    d.update(Message::StatusPolled(done), 1016);
    assert_eq!(d.current, Some((1, 0)));
    assert!(d.playing);
}

#[test]
fn restored_skin_has_the_saved_id_even_when_ids_repeat() {
    let ids = || vec![s("belt"), s("red"), s("belt")];
    let mut d = Deck::new(ids(), None, vec![None], None, None, None, None, 0);
    d.update(Message::CycleSkin, 0);
    d.update(Message::CycleSkin, 0);
    assert_eq!(d.skin_idx, 2);
    let entries = parse_state(&render_state(&d.saved_state(s("1"), s("0"))));
    let back = Deck::new(ids(), state_get(&entries, "skin"), vec![None], None, None, None, None, 0);
    assert_eq!(back.skin_ids[back.skin_idx], d.skin_ids[d.skin_idx]);
    assert_eq!(back.skin_idx, 0);
}
