use cosmic_cassette_deck::deck::{Deck, Message, Screen};
use cosmic_cassette_deck::library::{Album, Track};
use cosmic_cassette_deck::screens::{
    album_heading, covers_loaded, rack_body, rack_counter, reveal_message, shows_room, RackBody, RevealButton,
};

fn s(x: &str) -> String {
    x.to_string()
}

fn shelf() -> Vec<Album> {
    let t = |title: &str, path: &str| Track { title: s(title), path: s(path), duration_ms: 1000, number: 1 };
    vec![
        Album { title: s("Holy Diver"), artist: s("Dio"), art: Some(vec![1]), tracks: vec![t("Stand Up", "/1")] },
        Album { title: s("Powerslave"), artist: s("Iron Maiden"), art: None, tracks: vec![t("Aces High", "/2")] },
        Album { title: s("Back in Black"), artist: s("AC/DC"), art: None, tracks: vec![t("Hells Bells", "/3")] },
    ]
}

#[test]
fn rack_body_prefers_scan_then_empty() {
    assert_eq!(rack_body(true, 5), RackBody::Scanning);
    assert_eq!(rack_body(false, 0), RackBody::Empty);
    assert_eq!(rack_body(false, 3), RackBody::Fan);
}

#[test]
fn rack_counter_mentions_missing_covers() {
    assert_eq!(rack_counter(0, 12, 12), "1 / 12");
    assert_eq!(rack_counter(4, 12, 7), "5 / 12   ·   7 covers loaded");
}

#[test]
fn covers_count_embedded_and_scraped() {
    let lib = shelf();
    assert_eq!(covers_loaded(&lib, &vec![false, false, false]), 1);
    assert_eq!(covers_loaded(&lib, &vec![true, false, true]), 2);
    assert_eq!(album_heading(&lib[1]), "Iron Maiden – Powerslave");
}

#[test]
fn album_screen_button_follows_the_deck() {
    let mut d = Deck::new(vec![s("belt")], None, vec![None], None, None, None, None, 0);
    d.update(Message::LibraryLoaded { albums: shelf(), skipped: 0 }, 0);
    assert_eq!(d.reveal_button(1), RevealButton::Start);
    assert!(matches!(reveal_message(RevealButton::Start, 1), Message::OpenCase { album: 1, track: 0 }));
    d.update(Message::PlayTrack { album: 1, track: 0 }, 0);
    d.update(Message::Tick, 1000);
    assert_eq!(d.reveal_button(1), RevealButton::Pause);
    assert_eq!(d.reveal_button(0), RevealButton::Start);
    assert_eq!(d.now_playing(1), Some(s("♪ Now playing: Aces High")));
    assert_eq!(d.now_playing(0), None);
    d.update(Message::TogglePlay, 1000);
    assert_eq!(d.reveal_button(1), RevealButton::Resume);
    assert!(matches!(reveal_message(RevealButton::Resume, 1), Message::TogglePlay));
}

#[test]
fn room_shows_behind_album_and_case() {
    assert!(shows_room(Screen::Reveal(0)));
    assert!(shows_room(Screen::CaseOpen { album: 0, track: 0, started_ms: 0 }));
    assert!(!shows_room(Screen::Rack));
    assert!(!shows_room(Screen::Player));
    assert!(!shows_room(Screen::Loading { album: 0, track: 0, started_ms: 0 }));
}
