use cosmic_cassette_deck::artscrape::{FetchError, RecordingHit, ReleaseGroupHit, ReleaseRef};
use cosmic_cassette_deck::coverfetch::{
    cache_dir, cache_verdict, cover_image_url, fetch_cover, fetch_cover_start, image_cache_name,
    lookup_wait_ms, miss_cache_name, retry_decision, secure_url, CacheVerdict, CoverImage,
    FetchReply, FetchStep, JsonSlot, RetryDecision,
};

fn s(x: &str) -> String {
    x.to_string()
}

fn img(front: Option<bool>, t500: JsonSlot, large: JsonSlot, image: Option<&str>) -> CoverImage {
    CoverImage { front, thumb_500: t500, thumb_large: large, image: image.map(s) }
}

fn album(id: &str, score: i64) -> ReleaseGroupHit {
    ReleaseGroupHit { primary_type: Some(s("Album")), secondary_types: Some(0), score: Some(score), id: Some(s(id)) }
}

fn url_of(step: &FetchStep) -> String {
    match step {
        FetchStep::SearchGroups(u)
        | FetchStep::GroupMeta(u)
        | FetchStep::GroupImage(u)
        | FetchStep::Space(u)
        | FetchStep::SearchRecordings(u)
        | FetchStep::RecordingMeta(u)
        | FetchStep::RecordingImage(u) => u.clone(),
        FetchStep::Done(_) => panic!("done"),
    }
}

#[test]
fn secure_url_upgrades_every_http() {
    assert_eq!(secure_url("http://coverartarchive.org/x.jpg"), "https://coverartarchive.org/x.jpg");
    assert_eq!(secure_url("https://a/b"), "https://a/b");
    assert_eq!(secure_url("http://a?next=http://b"), "https://a?next=https://b");
    assert_eq!(secure_url("xhttp:/"), "xhttp:/");
    assert_eq!(secure_url(""), "");
}

#[test]
fn cover_url_prefers_front_and_thumbnails() {
    let imgs = vec![
        img(Some(false), JsonSlot::Text(s("http://t/back500")), JsonSlot::Missing, Some("http://i/back")),
        img(Some(true), JsonSlot::Missing, JsonSlot::Text(s("http://t/frontlarge")), Some("http://i/front")),
    ];
    assert_eq!(cover_image_url(&imgs), Some(s("https://t/frontlarge")));
    let no_front = vec![img(None, JsonSlot::Text(s("http://t/500")), JsonSlot::Text(s("http://t/large")), None)];
    assert_eq!(cover_image_url(&no_front), Some(s("https://t/500")));
}

#[test]
fn cover_url_falls_back_to_full_image() {
    // A "500" entry that is not a string is taken, fails, and falls to `image`.
    let odd = vec![img(Some(true), JsonSlot::Other, JsonSlot::Text(s("http://t/large")), Some("http://i/full"))];
    assert_eq!(cover_image_url(&odd), Some(s("https://i/full")));
    let bare = vec![img(Some(true), JsonSlot::Missing, JsonSlot::Missing, None)];
    assert_eq!(cover_image_url(&bare), None);
    assert_eq!(cover_image_url(&vec![]), None);
}

#[test]
fn lookup_finds_a_cover_in_tier_one() {
    let step = fetch_cover_start("Dio", "Holy Diver");
    assert!(url_of(&step).starts_with("https://musicbrainz.org/ws/2/release-group?query="));
    let step = fetch_cover("Dio", "Holy Diver", step, FetchReply::Groups(Ok(Some(vec![album("rg1", 100)]))));
    assert!(matches!(&step, FetchStep::GroupMeta(u) if u == "https://coverartarchive.org/release-group/rg1"));
    let meta = vec![img(Some(true), JsonSlot::Text(s("http://t/500.jpg")), JsonSlot::Missing, None)];
    let step = fetch_cover("Dio", "Holy Diver", step, FetchReply::Meta(Some(meta)));
    assert!(matches!(&step, FetchStep::GroupImage(u) if u == "https://t/500.jpg"));
    let step = fetch_cover("Dio", "Holy Diver", step, FetchReply::Image(Some(vec![1, 2, 3])));
    assert!(matches!(step, FetchStep::Done(Ok(ref b)) if *b == vec![1, 2, 3]));
}

#[test]
fn lookup_falls_back_to_recordings() {
    let step = fetch_cover_start("Iron Maiden", "The Trooper");
    let step = fetch_cover("Iron Maiden", "The Trooper", step, FetchReply::Groups(Ok(Some(vec![]))));
    assert!(matches!(&step, FetchStep::Space(u) if u.starts_with("https://musicbrainz.org/ws/2/recording?query=")));
    let waited = url_of(&step);
    let step = fetch_cover("Iron Maiden", "The Trooper", step, FetchReply::Spaced);
    assert!(matches!(&step, FetchStep::SearchRecordings(u) if *u == waited));
    let recs = vec![RecordingHit { releases: Some(vec![ReleaseRef { group: Some(album("pom", 0)) }]) }];
    let step = fetch_cover("Iron Maiden", "The Trooper", step, FetchReply::Recordings(Ok(Some(recs))));
    assert!(matches!(&step, FetchStep::RecordingMeta(u) if u == "https://coverartarchive.org/release-group/pom"));
    let step = fetch_cover("Iron Maiden", "The Trooper", step, FetchReply::Meta(None));
    assert!(matches!(step, FetchStep::Done(Err(FetchError::NotFound))));
}

#[test]
fn empty_image_moves_on() {
    let step = FetchStep::GroupImage(s("https://x"));
    let step = fetch_cover("A", "B", step, FetchReply::Image(Some(vec![])));
    assert!(matches!(step, FetchStep::Space(_)));
    let step = fetch_cover("A", "B", FetchStep::RecordingImage(s("https://y")), FetchReply::Image(None));
    assert!(matches!(step, FetchStep::Done(Err(FetchError::NotFound))));
}

#[test]
fn throttling_ends_the_lookup() {
    let step = fetch_cover_start("A", "B");
    let step = fetch_cover("A", "B", step, FetchReply::Groups(Err(FetchError::RateLimited)));
    assert!(matches!(step, FetchStep::Done(Err(FetchError::RateLimited))));
    let step = fetch_cover("A", "B", FetchStep::SearchRecordings(s("u")), FetchReply::Recordings(Err(FetchError::RateLimited)));
    assert!(matches!(step, FetchStep::Done(Err(FetchError::RateLimited))));
    let step = fetch_cover("A", "B", FetchStep::SearchGroups(s("u")), FetchReply::Groups(Err(FetchError::NotFound)));
    assert!(matches!(step, FetchStep::Space(_)));
    let step = fetch_cover("A", "B", FetchStep::SearchRecordings(s("u")), FetchReply::Recordings(Ok(None)));
    assert!(matches!(step, FetchStep::Done(Err(FetchError::NotFound))));
}

#[test]
fn recording_search_waits_after_group_search() {
    // Every way out of tier one into tier two goes through the wait.
    let after_groups = fetch_cover("A", "B", FetchStep::SearchGroups(s("g")), FetchReply::Groups(Ok(None)));
    let after_meta = fetch_cover("A", "B", FetchStep::GroupMeta(s("m")), FetchReply::Meta(None));
    let after_image = fetch_cover("A", "B", FetchStep::GroupImage(s("i")), FetchReply::Image(None));
    for step in [after_groups, after_meta, after_image] {
        assert!(matches!(&step, FetchStep::Space(u) if u.starts_with("https://musicbrainz.org/ws/2/recording?query=")));
    }
    // The wait only ends with its own reply.
    let step = fetch_cover("A", "B", FetchStep::Space(s("r")), FetchReply::Image(None));
    assert!(matches!(&step, FetchStep::Space(u) if u == "r"));
    let step = fetch_cover("A", "B", step, FetchReply::Spaced);
    assert!(matches!(&step, FetchStep::SearchRecordings(u) if u == "r"));
}

#[test]
fn wrong_reply_changes_nothing() {
    let step = fetch_cover("A", "B", FetchStep::GroupMeta(s("m")), FetchReply::Image(Some(vec![1])));
    assert!(matches!(&step, FetchStep::GroupMeta(u) if u == "m"));
    let step = fetch_cover("A", "B", FetchStep::Done(Ok(vec![5])), FetchReply::Image(None));
    assert!(matches!(step, FetchStep::Done(Ok(ref b)) if *b == vec![5]));
}

#[test]
fn retries_back_off_and_stop() {
    assert_eq!(retry_decision(&Ok(vec![1]), 0), RetryDecision::Accept);
    assert_eq!(retry_decision(&Ok(vec![]), 0), RetryDecision::GiveUp);
    assert_eq!(retry_decision(&Err(FetchError::RateLimited), 0), RetryDecision::Retry(1000));
    assert_eq!(retry_decision(&Err(FetchError::RateLimited), 1), RetryDecision::Retry(2000));
    assert_eq!(retry_decision(&Err(FetchError::RateLimited), 2), RetryDecision::Retry(4000));
    assert_eq!(retry_decision(&Err(FetchError::RateLimited), 3), RetryDecision::GiveUp);
    assert_eq!(retry_decision(&Err(FetchError::NotFound), 0), RetryDecision::GiveUp);
}

#[test]
fn lookups_are_spaced() {
    assert_eq!(lookup_wait_ms(0), 1500);
    assert_eq!(lookup_wait_ms(400), 1100);
    assert_eq!(lookup_wait_ms(1500), 0);
    assert_eq!(lookup_wait_ms(9000), 0);
}

#[test]
fn cache_verdicts() {
    assert!(matches!(cache_verdict(true, Some(vec![1])), CacheVerdict::KnownMiss));
    assert!(matches!(cache_verdict(false, Some(vec![1, 2])), CacheVerdict::Cached(ref b) if *b == vec![1, 2]));
    assert!(matches!(cache_verdict(false, Some(vec![])), CacheVerdict::Lookup));
    assert!(matches!(cache_verdict(false, None), CacheVerdict::Lookup));
}

#[test]
fn cache_names_and_dir() {
    assert_eq!(image_cache_name("AC/DC\tBack in Black"), "AC_DC_Back_in_Black.img");
    assert_eq!(miss_cache_name("Dio\tHoly Diver"), "Dio_Holy_Diver.none");
    assert_eq!(cache_dir(Some(s("/c")), Some(s("/h"))), Some(s("/c/cosmic-cassette-deck/covers")));
    assert_eq!(cache_dir(None, Some(s("/h"))), Some(s("/h/.cache/cosmic-cassette-deck/covers")));
    assert_eq!(cache_dir(None, None), None);
}
