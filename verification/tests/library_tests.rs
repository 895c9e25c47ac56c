use cosmic_cassette_deck::library::{
    album_art_key, cover_picture_index, find_track, is_audio_ext, parse_filename, resolve_track,
    Album, TagFields, Track,
};
use cosmic_cassette_deck::shelf::{group_albums, sort_tracks, ScannedTrack};

fn s(x: &str) -> String {
    x.to_string()
}

fn track(title: &str, path: &str, number: u32) -> Track {
    Track { title: s(title), path: s(path), duration_ms: 1000, number }
}

#[test]
fn audio_extensions_ignore_case() {
    assert!(is_audio_ext("mp3"));
    assert!(is_audio_ext("FLAC"));
    assert!(is_audio_ext("Ogg"));
    assert!(is_audio_ext("oga"));
    assert!(is_audio_ext("m4a"));
    assert!(is_audio_ext("WAV"));
    assert!(!is_audio_ext("txt"));
    assert!(!is_audio_ext("mp4"));
    assert!(!is_audio_ext(""));
}

#[test]
fn filename_splits_on_first_spaced_hyphen() {
    assert_eq!(parse_filename("a-ha - Take On Me"), (s("a-ha"), s("Take On Me"), 0));
    assert_eq!(parse_filename("American Hi-Fi - Flavor of the Weak - Live"), (s("American Hi-Fi"), s("Flavor of the Weak - Live"), 0));
}

#[test]
fn filename_strips_track_number() {
    assert_eq!(parse_filename("01 - Iron Maiden - The Trooper"), (s("Iron Maiden"), s("The Trooper"), 1));
    assert_eq!(parse_filename("03. Song"), (s("Unknown Artist"), s("Song"), 3));
    assert_eq!(parse_filename("12) Dio - Holy Diver"), (s("Dio"), s("Holy Diver"), 12));
    assert_eq!(parse_filename("1984 Jump"), (s("Unknown Artist"), s("1984 Jump"), 0));
}

#[test]
fn filename_fills_blank_fields() {
    assert_eq!(parse_filename(" - Song"), (s("Unknown Artist"), s("Song"), 0));
    assert_eq!(parse_filename("Artist - "), (s("Artist"), s("Artist -"), 0));
    assert_eq!(parse_filename("Just A Title"), (s("Unknown Artist"), s("Just A Title"), 0));
}

#[test]
fn tags_win_and_filename_fills_in() {
    let tag = TagFields { title: Some(s("Holy Diver")), artist: Some(s("Dio")), album: Some(s("Holy Diver")), track: Some(1) };
    let t = resolve_track(Some(tag), "05 - X - Y");
    assert_eq!((t.artist, t.album, t.title, t.number), (s("Dio"), s("Holy Diver"), s("Holy Diver"), 1));

    let sparse = TagFields { title: Some(s("  ")), artist: None, album: None, track: Some(0) };
    let t = resolve_track(Some(sparse), "07 - Dio - Rainbow in the Dark");
    assert_eq!((t.artist, t.album, t.title, t.number), (s("Dio"), s("Rainbow in the Dark"), s("Rainbow in the Dark"), 7));
}

#[test]
fn untagged_file_is_a_single() {
    let t = resolve_track(None, "Queen - Bohemian Rhapsody");
    assert_eq!((t.artist, t.album, t.title, t.number), (s("Queen"), s("Bohemian Rhapsody"), s("Bohemian Rhapsody"), 0));
}

#[test]
fn front_cover_is_preferred() {
    assert_eq!(cover_picture_index(&vec![false, true, true]), Some(1));
    assert_eq!(cover_picture_index(&vec![false, false]), Some(0));
    assert_eq!(cover_picture_index(&vec![]), None);
}

#[test]
fn art_key_joins_artist_and_title() {
    let a = Album { title: s("Piece of Mind"), artist: s("Iron Maiden"), art: None, tracks: vec![] };
    assert_eq!(album_art_key(&a), "Iron Maiden\tPiece of Mind");
}

#[test]
fn find_track_takes_the_first_match() {
    let lib = vec![
        Album { title: s("A"), artist: s("X"), art: None, tracks: vec![track("a1", "/m/a1", 1), track("a2", "/m/a2", 2)] },
        Album { title: s("B"), artist: s("Y"), art: None, tracks: vec![track("b1", "/m/b1", 1), track("dup", "/m/a2", 2)] },
    ];
    assert_eq!(find_track(&lib, "/m/a2"), Some((0, 1)));
    assert_eq!(find_track(&lib, "/m/b1"), Some((1, 0)));
    assert_eq!(find_track(&lib, "/m/none"), None);
}

#[test]
fn tracks_sort_by_number_then_title_stably() {
    let sorted = sort_tracks(vec![
        track("b", "/1", 2),
        track("a", "/2", 2),
        track("z", "/3", 1),
        track("a", "/4", 2),
    ]);
    let paths: Vec<String> = sorted.iter().map(|t| t.path.clone()).collect();
    assert_eq!(paths, vec![s("/3"), s("/2"), s("/4"), s("/1")]);
}

#[test]
fn grouping_orders_albums_and_keeps_first_cover() {
    let entries = vec![
        ScannedTrack { artist: s("Dio"), album: s("Holy Diver"), track: track("Rainbow", "/d2", 2), art: None },
        ScannedTrack { artist: s("AC/DC"), album: s("Back in Black"), track: track("Hells Bells", "/a1", 1), art: Some(vec![1, 2]) },
        ScannedTrack { artist: s("Dio"), album: s("Holy Diver"), track: track("Stand Up", "/d1", 1), art: Some(vec![9]) },
        ScannedTrack { artist: s("Dio"), album: s("Holy Diver"), track: track("Holy Diver", "/d3", 3), art: Some(vec![7]) },
    ];
    let albums = group_albums(entries);
    assert_eq!(albums.len(), 2);
    assert_eq!((albums[0].artist.as_str(), albums[0].title.as_str()), ("AC/DC", "Back in Black"));
    assert_eq!(albums[0].art, Some(vec![1, 2]));
    assert_eq!((albums[1].artist.as_str(), albums[1].title.as_str()), ("Dio", "Holy Diver"));
    assert_eq!(albums[1].art, Some(vec![9]));
    let titles: Vec<String> = albums[1].tracks.iter().map(|t| t.title.clone()).collect();
    assert_eq!(titles, vec![s("Stand Up"), s("Rainbow"), s("Holy Diver")]);
}
