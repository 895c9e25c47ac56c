use cosmic_cassette_deck::artscrape::{
    art_requests, best_release_group_recording, best_release_group_rg, cover_archive_url,
    fetch_error_for_status, recording_search_url, release_group_search_url, FetchError,
    RecordingHit, ReleaseGroupHit, ReleaseRef,
};
use cosmic_cassette_deck::library::Album;

fn s(x: &str) -> String {
    x.to_string()
}

fn group(kind: Option<&str>, sec: Option<usize>, score: Option<i64>, id: Option<&str>) -> ReleaseGroupHit {
    ReleaseGroupHit {
        primary_type: kind.map(s),
        secondary_types: sec,
        score,
        id: id.map(s),
    }
}

#[test]
fn requests_cover_only_albums_without_art() {
    let albums = vec![
        Album { title: s("Holy Diver"), artist: s("Dio"), art: None, tracks: vec![] },
        Album { title: s("Powerslave"), artist: s("Iron Maiden"), art: Some(vec![1]), tracks: vec![] },
        Album { title: s("Piece of Mind"), artist: s("Iron Maiden"), art: None, tracks: vec![] },
    ];
    let reqs = art_requests(&albums);
    assert_eq!(reqs.len(), 2);
    assert_eq!(reqs[0].key, "Dio\tHoly Diver");
    assert_eq!((reqs[0].artist.as_str(), reqs[0].title.as_str()), ("Dio", "Holy Diver"));
    assert_eq!(reqs[1].key, "Iron Maiden\tPiece of Mind");
}

#[test]
fn status_codes_map_to_errors() {
    assert_eq!(fetch_error_for_status(429), FetchError::RateLimited);
    assert_eq!(fetch_error_for_status(503), FetchError::RateLimited);
    assert_eq!(fetch_error_for_status(404), FetchError::NotFound);
    assert_eq!(fetch_error_for_status(500), FetchError::NotFound);
}

#[test]
fn search_urls_encode_the_query() {
    assert_eq!(
        release_group_search_url("AC/DC", "High Voltage"),
        "https://musicbrainz.org/ws/2/release-group?query=artist%3A%22AC%2FDC%22%20AND%20releasegroup%3A%22High%20Voltage%22&fmt=json&limit=10"
    );
    assert_eq!(
        recording_search_url("Dio", "Holy Diver"),
        "https://musicbrainz.org/ws/2/recording?query=artist%3A%22Dio%22%20AND%20recording%3A%22Holy%20Diver%22&fmt=json&limit=15"
    );
    assert_eq!(cover_archive_url("abc-123"), "https://coverartarchive.org/release-group/abc-123");
}

#[test]
fn release_group_pick_prefers_pure_studio_albums() {
    let groups = vec![
        group(Some("Album"), Some(1), Some(100), Some("comp")),   // 100 - 40 = 60: too weak
        group(Some("Single"), Some(0), Some(100), Some("single")), // not an album
        group(Some("Album"), Some(0), Some(95), Some("studio")),   // 95 + 50 = 145
        group(Some("Album"), None, Some(95), Some("tie")),         // 145 as well: the first wins
        group(Some("Album"), Some(0), Some(100), None),            // no id
    ];
    assert_eq!(best_release_group_rg(&groups), Some(s("studio")));
}

#[test]
fn release_group_pick_needs_a_strong_match() {
    let groups = vec![
        group(Some("Album"), Some(2), Some(100), Some("live")), // 100 - 80 = 20
        group(Some("Album"), Some(0), Some(40), Some("weak")),  // 40 + 50 = 90: not above 90
        group(None, Some(0), Some(100), Some("untyped")),
    ];
    assert_eq!(best_release_group_rg(&groups), None);
    assert_eq!(best_release_group_rg(&vec![]), None);
    let missing_score = vec![group(Some("Album"), Some(0), None, Some("x"))]; // 0 + 50
    assert_eq!(best_release_group_rg(&missing_score), None);
    let just_over = vec![group(Some("Album"), Some(0), Some(41), Some("ok"))]; // 91
    assert_eq!(best_release_group_rg(&just_over), Some(s("ok")));
}

fn rec(groups: Vec<Option<ReleaseGroupHit>>) -> RecordingHit {
    RecordingHit { releases: Some(groups.into_iter().map(|g| ReleaseRef { group: g }).collect()) }
}

#[test]
fn recording_pick_weighs_release_groups() {
    let recs = vec![
        rec(vec![Some(group(Some("Album"), Some(1), None, Some("live")))]), // 50
        RecordingHit { releases: None },
        rec(vec![None, Some(group(Some("Album"), Some(0), None, Some("studio")))]), // 140
        rec(vec![Some(group(Some("Album"), Some(0), None, Some("later")))]), // 140, later
    ];
    assert_eq!(best_release_group_recording(&recs), Some(s("studio")));
}

#[test]
fn recording_pick_takes_anything_that_is_an_album() {
    let recs = vec![rec(vec![Some(group(Some("Album"), Some(3), None, Some("comp")))])]; // -50
    assert_eq!(best_release_group_recording(&recs), Some(s("comp")));
    let none = vec![rec(vec![Some(group(Some("EP"), Some(0), None, Some("ep")))])];
    assert_eq!(best_release_group_recording(&none), None);
}

#[test]
fn recording_pick_reads_only_the_first_fifteen() {
    let mut recs: Vec<RecordingHit> = (0..15).map(|_| RecordingHit { releases: None }).collect();
    recs.push(rec(vec![Some(group(Some("Album"), Some(0), None, Some("sixteenth")))]));
    assert_eq!(best_release_group_recording(&recs), None);
    recs.swap(0, 15);
    assert_eq!(best_release_group_recording(&recs), Some(s("sixteenth")));
}
