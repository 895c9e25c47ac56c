use cosmic_cassette_deck::state::{path_parts, same_path};
use cosmic_cassette_deck::state::{
    config_dir, legacy_music_dir_path, parse_index, parse_state, render_state, restore_bg_idx,
    split_tab_list, state_get, state_path, trimmed, SavedState,
};

fn s(x: &str) -> String {
    x.to_string()
}

#[test]
fn state_path_prefers_xdg_config_home() {
    assert_eq!(state_path(Some(s("/cfg")), Some(s("/home/u"))), Some(s("/cfg/cosmic-cassette-deck/state")));
    assert_eq!(state_path(None, Some(s("/home/u"))), Some(s("/home/u/.config/cosmic-cassette-deck/state")));
    assert_eq!(state_path(Some(s("/cfg/")), None), Some(s("/cfg/cosmic-cassette-deck/state")));
    assert_eq!(state_path(None, None), None);
}

#[test]
fn config_and_legacy_paths() {
    assert_eq!(config_dir(None, Some(s("/h"))), Some(s("/h/.config/cosmic-cassette-deck")));
    assert_eq!(legacy_music_dir_path(Some(s("/c")), None), Some(s("/c/cosmic-cassette-deck/music-dir")));
    assert_eq!(config_dir(None, None), None);
}

#[test]
fn parse_state_reads_trimmed_pairs_and_last_wins() {
    let entries = parse_state(" volume = 0.5 \nnot a pair\nskin=red\nskin=blue\n\nbg_idx=2");
    assert_eq!(state_get(&entries, "volume"), Some(s("0.5")));
    assert_eq!(state_get(&entries, "skin"), Some(s("blue")));
    assert_eq!(state_get(&entries, "bg_idx"), Some(s("2")));
    assert_eq!(state_get(&entries, "music_dir"), None);
}

#[test]
fn parse_state_splits_at_first_equals() {
    let entries = parse_state("music_dir=/a=b/c\n");
    assert_eq!(state_get(&entries, "music_dir"), Some(s("/a=b/c")));
}

#[test]
fn render_state_writes_lines_in_order() {
    let st = SavedState {
        music_dir: Some(s("/music")),
        volume: s("0.85"),
        skin: s("belt"),
        bg_idx: 3,
        bg_files: vec![s("/p/a.png"), s("/p/b.png")],
        wallpaper: true,
        resume: Some((s("/music/x.mp3"), s("12.5"))),
    };
    assert_eq!(
        render_state(&st),
        "music_dir=/music\nvolume=0.85\nskin=belt\nbg_idx=3\nwallpaper=true\nbg_files=/p/a.png\t/p/b.png\nlast_track=/music/x.mp3\nlast_pos_secs=12.5\n"
    );
    let bare = SavedState {
        music_dir: None,
        volume: s("1"),
        skin: s("red"),
        bg_idx: 0,
        bg_files: vec![],
        wallpaper: false,
        resume: None,
    };
    assert_eq!(render_state(&bare), "volume=1\nskin=red\nbg_idx=0\nwallpaper=false\n");
}

#[test]
fn state_roundtrip_reads_back_what_was_written() {
    let st = SavedState {
        music_dir: Some(s("/home/u/Music")),
        volume: s("0.7"),
        skin: s("white"),
        bg_idx: 4,
        bg_files: vec![s("/bg/one.png"), s("/bg/two.jpg")],
        wallpaper: true,
        resume: Some((s("/home/u/Music/a.flac"), s("3.25"))),
    };
    let text = render_state(&st);
    let entries = parse_state(&text);
    assert_eq!(state_get(&entries, "music_dir"), Some(s("/home/u/Music")));
    assert_eq!(state_get(&entries, "volume"), Some(s("0.7")));
    assert_eq!(state_get(&entries, "skin"), Some(s("white")));
    assert_eq!(state_get(&entries, "wallpaper"), Some(s("true")));
    assert_eq!(state_get(&entries, "bg_idx").and_then(|v| parse_index(&v)), Some(4));
    let files = state_get(&entries, "bg_files").unwrap();
    assert_eq!(split_tab_list(&files), vec![s("/bg/one.png"), s("/bg/two.jpg")]);
    assert_eq!(state_get(&entries, "last_track"), Some(s("/home/u/Music/a.flac")));
    assert_eq!(state_get(&entries, "last_pos_secs"), Some(s("3.25")));
}

#[test]
fn parse_index_follows_usize_parsing() {
    assert_eq!(parse_index("0"), Some(0));
    assert_eq!(parse_index("42"), Some(42));
    assert_eq!(parse_index("+7"), Some(7));
    assert_eq!(parse_index("007"), Some(7));
    assert_eq!(parse_index(""), None);
    assert_eq!(parse_index("+"), None);
    assert_eq!(parse_index("-1"), None);
    assert_eq!(parse_index(" 1"), None);
    assert_eq!(parse_index("1x"), None);
    assert_eq!(parse_index("99999999999999999999999"), None);
}

#[test]
fn restore_bg_idx_falls_back_to_first() {
    assert_eq!(restore_bg_idx(Some(s("2")), 3), 2);
    assert_eq!(restore_bg_idx(Some(s("3")), 3), 0);
    assert_eq!(restore_bg_idx(Some(s("x")), 3), 0);
    assert_eq!(restore_bg_idx(None, 3), 0);
}

#[test]
fn split_tab_list_drops_empty_pieces() {
    assert_eq!(split_tab_list("a\t\tb\t"), vec![s("a"), s("b")]);
    assert_eq!(split_tab_list(""), Vec::<String>::new());
}

#[test]
fn trimmed_strips_whitespace() {
    assert_eq!(trimmed("  /music/dir \n"), "/music/dir");
    assert_eq!(trimmed("   "), "");
}

#[test]
fn same_path_compares_components() {
    assert!(same_path("/m/a1", "/m//a1"));
    assert!(same_path("/m/a1", "/m/./a1/"));
    assert!(same_path("./x", "./x/"));
    assert!(!same_path("/m/a1", "m/a1"));
    assert!(!same_path("./x", "x"));
    assert!(!same_path("/m/a1", "/m/a2"));
    assert!(!same_path("/m/../a1", "/a1"));
    assert_eq!(path_parts("/m//./a1/"), vec![s("m"), s("a1")]);
    assert_eq!(path_parts("."), Vec::<String>::new());
}
