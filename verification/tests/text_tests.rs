use cosmic_cassette_deck::text::{fmt_time, sanitize, truncate, urlencode};

#[test]
fn fmt_time_pads_seconds() {
    assert_eq!(fmt_time(0), "0:00");
    assert_eq!(fmt_time(5), "0:05");
    assert_eq!(fmt_time(65), "1:05");
    assert_eq!(fmt_time(600), "10:00");
    assert_eq!(fmt_time(3725), "62:05");
}

#[test]
fn truncate_keeps_short_text() {
    assert_eq!(truncate("Holy Diver", 10), "Holy Diver");
    assert_eq!(truncate("", 3), "");
}

#[test]
fn truncate_marks_the_cut() {
    assert_eq!(truncate("Master of Puppets", 8), "Master …");
    assert_eq!(truncate("abc", 1), "…");
    assert_eq!(truncate("abc", 0), "…");
    assert_eq!(truncate("héllo wörld", 6), "héllo…");
}

#[test]
fn sanitize_replaces_unsafe_characters() {
    assert_eq!(sanitize("AC/DC\tBack in Black"), "AC_DC_Back_in_Black");
    assert_eq!(sanitize("a-ha_Hunting 1985"), "a-ha_Hunting_1985");
    assert_eq!(sanitize("Motörhead"), "Mot_rhead");
    assert_eq!(sanitize(""), "");
}

#[test]
fn urlencode_escapes_reserved_bytes() {
    assert_eq!(urlencode("abcXYZ019-_.~"), "abcXYZ019-_.~");
    assert_eq!(urlencode("a b&c"), "a%20b%26c");
    assert_eq!(urlencode("artist:\"x\""), "artist%3A%22x%22");
    assert_eq!(urlencode("é"), "%C3%A9");
    assert_eq!(urlencode(""), "");
}

fn pct_decode(s: &str) -> Vec<u8> {
    let b = s.as_bytes();
    let hex = |c: u8| (c as char).to_digit(16).unwrap_or(0) as u8;
    let mut out = Vec::new();
    let mut i = 0;
    while i < b.len() {
        if b[i] == b'%' && i + 2 < b.len() {
            out.push(hex(b[i + 1]) * 16 + hex(b[i + 2]));
            i += 3;
        } else {
            out.push(b[i]);
            i += 1;
        }
    }
    out
}

#[test]
fn urlencode_decodes_back_to_the_input() {
    for s in ["", "AC/DC", "Motörhead", "a b&c=d%e", "~._-", "日本語 ロック", "100%"] {
        let enc = urlencode(s);
        assert_eq!(pct_decode(&enc), s.as_bytes());
    }
    assert_eq!(urlencode("a b"), "a%20b");
    assert_ne!(urlencode("a b"), urlencode("a+b"));
}
