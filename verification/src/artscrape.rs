//! Album-art scraping decisions: which albums need a cover, the MusicBrainz
//! queries, which release group to trust, which Cover Art Archive image to
//! take, when to retry, and how covers are cached. The HTTP requests, the
//! JSON decoding and the files themselves are the caller's.
use vstd::prelude::*;
use crate::library::{Album, album_art_key};
use crate::state::opt_chars;
use crate::text::{url_escaped, urlencode};
use vstd::utf8::encode_utf8;

verus! {

/// One album needing art. `key` is the album's stable identity (artist, tab,
/// title), used as both the dedup key and the cache filename stem.
pub struct ArtRequest {
    pub key: String,
    pub artist: String,
    pub title: String,
}

/// A fetched cover: encoded image bytes ready to decode.
pub struct ArtResult {
    pub key: String,
    pub bytes: Vec<u8>,
}

/// Why a cover fetch came back empty.
#[derive(Clone, Copy, Debug, PartialEq, Eq, Structural)]
pub enum FetchError {
    NotFound,
    RateLimited,
}

/// The albums of a shelf that carry no embedded cover, in shelf order.
pub open spec fn coverless(albums: Seq<Album>) -> Seq<Album> {
    albums.filter(|a: Album| a.art is None)
}

/// The requests for the albums that have no embedded cover, in shelf order.
pub fn art_requests(albums: &Vec<Album>) -> (out: Vec<ArtRequest>)
    ensures
        out@.len() == coverless(albums@).len(),
        forall|i: int| 0 <= i < out@.len() ==> {
            let a = #[trigger] coverless(albums@)[i];
            &&& out@[i].key@ == a.artist@ + seq!['\t'] + a.title@
            &&& out@[i].artist@ == a.artist@
            &&& out@[i].title@ == a.title@
        },
{
    let ghost pred = |a: Album| a.art is None;
    let mut out: Vec<ArtRequest> = Vec::new();
    let mut i: usize = 0;
    proof {
        reveal(Seq::filter);
        assert(albums@.take(0).filter(pred) =~= Seq::<Album>::empty());
    }
    while i < albums.len()
        invariant
            i <= albums@.len(),
            pred == (|a: Album| a.art is None),
            out@.len() == coverless(albums@.take(i as int)).len(),
            forall|j: int| 0 <= j < out@.len() ==> {
                let a = #[trigger] coverless(albums@.take(i as int))[j];
                &&& out@[j].key@ == a.artist@ + seq!['\t'] + a.title@
                &&& out@[j].artist@ == a.artist@
                &&& out@[j].title@ == a.title@
            },
        decreases albums@.len() - i,
    {
        let a = &albums[i];
        proof {
            assert(albums@.take(i as int + 1) =~= albums@.take(i as int).push(albums@[i as int]));
            albums@.take(i as int).lemma_filter_push(albums@[i as int], pred);
        }
        if a.art.is_none() {
            let key = album_art_key(a);
            out.push(ArtRequest { key, artist: a.artist.clone(), title: a.title.clone() });
        }
        i = i + 1;
    }
    assert(albums@.take(albums@.len() as int) =~= albums@);
    out
}

/// The error an HTTP status means for MusicBrainz: throttling (429, 503) is
/// worth retrying, anything else is a miss.
pub fn fetch_error_for_status(code: u16) -> (e: FetchError)
    ensures
        e == if code == 429 || code == 503 {
            FetchError::RateLimited
        } else {
            FetchError::NotFound
        },
{
    if code == 429 || code == 503 {
        FetchError::RateLimited
    } else {
        FetchError::NotFound
    }
}

/// `artist:"<artist>" AND <field>:"<title>"`, the search MusicBrainz gets.
pub open spec fn search_terms(artist: Seq<char>, field: Seq<char>, title: Seq<char>) -> Seq<char> {
    "artist:\""@ + artist + "\" AND "@ + field + ":\""@ + title + "\""@
}

fn terms(artist: &str, field: &str, title: &str) -> (out: String)
    ensures
        out@ == search_terms(artist@, field@, title@),
{
    let mut q = String::new();
    q.append("artist:\"");
    q.append(artist);
    q.append("\" AND ");
    q.append(field);
    q.append(":\"");
    q.append(title);
    q.append("\"");
    assert(q@ =~= search_terms(artist@, field@, title@));
    q
}

/// The percent-encoded UTF-8 bytes of a query, as it stands in a URL.
pub open spec fn query_value(q: Seq<char>) -> Seq<char> {
    url_escaped(encode_utf8(q))
}

/// The MusicBrainz release-group search URL for an artist and title.
pub open spec fn release_group_search(artist: Seq<char>, title: Seq<char>) -> Seq<char> {
    "https://musicbrainz.org/ws/2/release-group?query="@ + query_value(
        search_terms(artist, "releasegroup"@, title),
    ) + "&fmt=json&limit=10"@
}

/// The MusicBrainz recording search URL for an artist and title.
pub open spec fn recording_search(artist: Seq<char>, title: Seq<char>) -> Seq<char> {
    "https://musicbrainz.org/ws/2/recording?query="@ + query_value(
        search_terms(artist, "recording"@, title),
    ) + "&fmt=json&limit=15"@
}

/// The MusicBrainz release-group search URL for an artist and title.
pub fn release_group_search_url(artist: &str, title: &str) -> (out: String)
    ensures
        out@ == release_group_search(artist@, title@),
{
    let q = terms(artist, "releasegroup", title);
    let mut url = String::new();
    url.append("https://musicbrainz.org/ws/2/release-group?query=");
    let enc = urlencode(q.as_str());
    url.append(enc.as_str());
    url.append("&fmt=json&limit=10");
    assert(url@ =~= release_group_search(artist@, title@));
    url
}

/// The MusicBrainz recording search URL for an artist and title.
pub fn recording_search_url(artist: &str, title: &str) -> (out: String)
    ensures
        out@ == recording_search(artist@, title@),
{
    let q = terms(artist, "recording", title);
    let mut url = String::new();
    url.append("https://musicbrainz.org/ws/2/recording?query=");
    let enc = urlencode(q.as_str());
    url.append(enc.as_str());
    url.append("&fmt=json&limit=15");
    assert(url@ =~= recording_search(artist@, title@));
    url
}

/// The Cover Art Archive metadata URL of a release group.
pub fn cover_archive_url(rgid: &str) -> (out: String)
    ensures
        out@ == "https://coverartarchive.org/release-group/"@ + rgid@,
{
    let mut url = String::new();
    url.append("https://coverartarchive.org/release-group/");
    url.append(rgid);
    url
}

} // verus!

verus! {

/// What is read of one MusicBrainz release group.
pub struct ReleaseGroupHit {
    /// `primary-type`, when it is a string.
    pub primary_type: Option<String>,
    /// The number of `secondary-types`, when that field is a list.
    pub secondary_types: Option<usize>,
    /// `score`, when it is an integer.
    pub score: Option<i64>,
    /// `id`, when it is a string.
    pub id: Option<String>,
}

/// One release of a recording: its release group, when it has one.
pub struct ReleaseRef {
    pub group: Option<ReleaseGroupHit>,
}

/// What is read of one MusicBrainz recording: its releases, when that field
/// is a list.
pub struct RecordingHit {
    pub releases: Option<Vec<ReleaseRef>>,
}

/// The number of secondary types, none counting as zero.
pub open spec fn secondary_count(h: ReleaseGroupHit) -> int {
    match h.secondary_types {
        Some(n) => n as int,
        None => 0,
    }
}

/// Whether the release group is a primary `Album`.
pub open spec fn is_album(h: ReleaseGroupHit) -> bool {
    h.primary_type matches Some(t) && t@ == "Album"@
}

/// Search score adjusted for a release-group search: each secondary type
/// (compilation, live, ...) costs 40, a pure studio album earns 50.
pub open spec fn group_search_score(h: ReleaseGroupHit) -> int {
    let sec = secondary_count(h);
    (match h.score {
        Some(s) => s as int,
        None => 0,
    }) - sec * 40 + if sec == 0 {
        50int
    } else {
        0int
    }
}

/// A release group that the release-group search may pick: a primary album
/// with an id, adjusted score above 90.
pub open spec fn group_search_fit(h: ReleaseGroupHit) -> bool {
    is_album(h) && group_search_score(h) > 90 && h.id is Some
}

/// Score of a release group met through a recording search: 100, less 50
/// per secondary type, plus 40 for a pure studio album.
pub open spec fn recording_group_score(g: Option<ReleaseGroupHit>) -> int {
    match g {
        Some(h) => {
            let sec = secondary_count(h);
            100 - sec * 50 + if sec == 0 {
                40int
            } else {
                0int
            }
        },
        None => 0,
    }
}

/// A release group that the recording search may pick: a primary album with
/// an id.
pub open spec fn recording_group_fit(g: Option<ReleaseGroupHit>) -> bool {
    g matches Some(h) && is_album(h) && h.id is Some
}

/// `s[i]` is the earliest of the best-scoring items of `s` that pass `ok`:
/// no passing item scores more, and every passing item before it scores less.
pub open spec fn leads<T>(s: Seq<T>, ok: spec_fn(T) -> bool, score: spec_fn(T) -> int, i: int) -> bool {
    &&& 0 <= i < s.len()
    &&& ok(s[i])
    &&& forall|j: int| 0 <= j < s.len() && ok(#[trigger] s[j]) ==> score(s[j]) <= score(s[i])
    &&& forall|j: int| 0 <= j < i && ok(#[trigger] s[j]) ==> score(s[j]) < score(s[i])
}

/// The index of the earliest best-scoring passing item, if any passes.
pub open spec fn pick<T>(s: Seq<T>, ok: spec_fn(T) -> bool, score: spec_fn(T) -> int) -> Option<int> {
    if exists|i: int| leads(s, ok, score, i) {
        Some(choose|i: int| leads(s, ok, score, i))
    } else {
        None
    }
}

/// How release groups are scored. In the release-group search a pure
/// studio album earns 50 on top of its search score and each secondary type
/// (compilation, live, ...) costs 40; it may be picked only when it is a
/// primary album with an id scoring above 90. Met through a recording, a pure
/// studio album scores 140 and each secondary type takes 50 off 100.
pub proof fn lemma_group_scores(h: ReleaseGroupHit)
    ensures
        secondary_count(h) == 0 ==> group_search_score(h) == (match h.score {
            Some(s) => s as int,
            None => 0,
        }) + 50,
        secondary_count(h) > 0 ==> group_search_score(h) == (match h.score {
            Some(s) => s as int,
            None => 0,
        }) - 40 * secondary_count(h),
        group_search_fit(h) <==> (is_album(h) && h.id is Some && group_search_score(h) > 90),
        secondary_count(h) == 0 ==> recording_group_score(Some(h)) == 140,
        secondary_count(h) > 0 ==> recording_group_score(Some(h)) == 100 - 50 * secondary_count(h),
        recording_group_score(None) == 0,
        recording_group_fit(Some(h)) <==> (is_album(h) && h.id is Some),
        !recording_group_fit(None),
{
}

/// A studio album is preferred to the same release with secondary types:
/// for equal search scores it scores strictly more in either search.
pub proof fn lemma_studio_preferred(studio: ReleaseGroupHit, other: ReleaseGroupHit)
    requires
        secondary_count(studio) == 0,
        secondary_count(other) > 0,
        studio.score == other.score,
    ensures
        group_search_score(studio) > group_search_score(other),
        recording_group_score(Some(studio)) > recording_group_score(Some(other)),
{
}

/// At most one item leads.
pub proof fn lemma_leads_unique<T>(s: Seq<T>, ok: spec_fn(T) -> bool, score: spec_fn(T) -> int, i: int, k: int)
    requires
        leads(s, ok, score, i),
        leads(s, ok, score, k),
    ensures
        i == k,
{
    if i < k {
        assert(score(s[i]) < score(s[k]));
        assert(score(s[k]) <= score(s[i]));
    } else if k < i {
        assert(score(s[k]) < score(s[i]));
        assert(score(s[i]) <= score(s[k]));
    }
}

/// The id a release-group search settles on (see `best_release_group_rg`).
pub open spec fn rg_pick(gs: Seq<ReleaseGroupHit>) -> Option<Seq<char>> {
    match pick(gs, |h: ReleaseGroupHit| group_search_fit(h), |h: ReleaseGroupHit| group_search_score(h)) {
        Some(i) => opt_chars(gs[i].id),
        None => None,
    }
}

fn is_album_exec(h: &ReleaseGroupHit) -> (b: bool)
    ensures
        b == is_album(*h),
{
    match &h.primary_type {
        Some(t) => {
            let album = "Album".to_owned();
            *t == album
        },
        None => false,
    }
}

fn secondary_of(h: &ReleaseGroupHit) -> (n: usize)
    ensures
        n as int == secondary_count(*h),
{
    match h.secondary_types {
        Some(n) => n,
        None => 0,
    }
}

/// The release group a release-group search settles on: the id of the
/// earliest best-scoring fit (see `group_search_fit`), none when nothing fits.
pub fn best_release_group_rg(groups: &Vec<ReleaseGroupHit>) -> (out: Option<String>)
    ensures
        opt_chars(out) == rg_pick(groups@),
        match out {
            None => forall|j: int| 0 <= j < groups@.len() ==> !group_search_fit(#[trigger] groups@[j]),
            Some(id) => exists|i: int| {
                &&& leads(groups@, |h: ReleaseGroupHit| group_search_fit(h), |h: ReleaseGroupHit| group_search_score(h), i)
                &&& #[trigger] groups@[i].id == Some(id)
            },
        },
{
    let ghost ok = |h: ReleaseGroupHit| group_search_fit(h);
    let ghost score = |h: ReleaseGroupHit| group_search_score(h);
    let mut best: Option<(i128, String)> = None;
    let ghost mut at: int = 0;
    let mut i: usize = 0;
    while i < groups.len()
        invariant
            i <= groups@.len(),
            ok == (|h: ReleaseGroupHit| group_search_fit(h)),
            score == (|h: ReleaseGroupHit| group_search_score(h)),
            match best {
                None => forall|j: int| 0 <= j < i ==> !group_search_fit(#[trigger] groups@[j]),
                Some((s, id)) => {
                    &&& leads(groups@.take(i as int), ok, score, at)
                    &&& s == group_search_score(groups@[at])
                    &&& groups@[at].id == Some(id)
                },
            },
        decreases groups@.len() - i,
    {
        let h = &groups[i];
        let ghost prev = groups@.take(i as int);
        assert(groups@.take(i as int + 1) =~= prev.push(*h));
        if is_album_exec(h) {
            let sec = secondary_of(h);
            let raw: i64 = match h.score {
                Some(s) => s,
                None => 0,
            };
            let bonus: i128 = if sec == 0 { 50 } else { 0 };
            let adjusted: i128 = raw as i128 - (sec as i128) * 40 + bonus;
            assert(adjusted == group_search_score(*h));
            if adjusted > 90 {
                match &h.id {
                    Some(id) => {
                        let better = match &best {
                            Some((s, _)) => adjusted > *s,
                            None => true,
                        };
                        if better {
                            best = Some((adjusted, id.clone()));
                            proof {
                                at = i as int;
                            }
                        }
                    },
                    None => {},
                }
            }
        }
        i = i + 1;
    }
    assert(groups@.take(groups@.len() as int) =~= groups@);
    match best {
        Some((_, id)) => {
            proof {
                let k = choose|k: int| leads(groups@, ok, score, k);
                lemma_leads_unique(groups@, ok, score, at, k);
            }
            Some(id)
        },
        None => {
            assert(!exists|k: int| leads(groups@, ok, score, k));
            None
        },
    }
}

} // verus!

verus! {

/// The release groups of a recording's releases, in order.
pub open spec fn releases_of(r: RecordingHit) -> Seq<Option<ReleaseGroupHit>> {
    match r.releases {
        Some(v) => v@.map_values(|x: ReleaseRef| x.group),
        None => Seq::empty(),
    }
}

/// The release groups of all the recordings' releases, recording by
/// recording.
pub open spec fn release_groups(recs: Seq<RecordingHit>) -> Seq<Option<ReleaseGroupHit>>
    decreases recs.len(),
{
    if recs.len() == 0 {
        Seq::empty()
    } else {
        release_groups(recs.drop_last()) + releases_of(recs.last())
    }
}

/// The release groups a recording search weighs: those of its first 15
/// recordings.
pub open spec fn searched_groups(recs: Seq<RecordingHit>) -> Seq<Option<ReleaseGroupHit>> {
    release_groups(recs.take(if recs.len() < 15 { recs.len() as int } else { 15 }))
}

/// The id a recording search settles on (see `best_release_group_recording`).
pub open spec fn recording_pick(recs: Seq<RecordingHit>) -> Option<Seq<char>> {
    let gs = searched_groups(recs);
    match pick(gs, |g: Option<ReleaseGroupHit>| recording_group_fit(g), |g: Option<ReleaseGroupHit>| recording_group_score(g)) {
        Some(i) => match gs[i] {
            Some(h) => opt_chars(h.id),
            None => None,
        },
        None => None,
    }
}

/// The release group a recording search settles on: among the release groups
/// of the first 15 recordings, the id of the earliest best-scoring fit (see
/// `recording_group_fit`), none when nothing fits.
pub fn best_release_group_recording(recordings: &Vec<RecordingHit>) -> (out: Option<String>)
    ensures
        opt_chars(out) == recording_pick(recordings@),
        match out {
            None => forall|j: int|
                0 <= j < searched_groups(recordings@).len() ==> !recording_group_fit(
                    #[trigger] searched_groups(recordings@)[j],
                ),
            Some(id) => exists|i: int| {
                &&& leads(
                    searched_groups(recordings@),
                    |g: Option<ReleaseGroupHit>| recording_group_fit(g),
                    |g: Option<ReleaseGroupHit>| recording_group_score(g),
                    i,
                )
                &&& #[trigger] searched_groups(recordings@)[i] matches Some(h) && h.id == Some(id)
            },
        },
{
    let ghost ok = |g: Option<ReleaseGroupHit>| recording_group_fit(g);
    let ghost score = |g: Option<ReleaseGroupHit>| recording_group_score(g);
    let limit: usize = if recordings.len() < 15 { recordings.len() } else { 15 };
    let mut best: Option<(i128, String)> = None;
    let ghost mut at: int = 0;
    let ghost mut seen: Seq<Option<ReleaseGroupHit>> = Seq::empty();
    let mut r: usize = 0;
    while r < limit
        invariant
            r <= limit <= recordings@.len(),
            limit == if recordings@.len() < 15 { recordings@.len() as int } else { 15 },
            ok == (|g: Option<ReleaseGroupHit>| recording_group_fit(g)),
            score == (|g: Option<ReleaseGroupHit>| recording_group_score(g)),
            seen == release_groups(recordings@.take(r as int)),
            match best {
                None => forall|j: int| 0 <= j < seen.len() ==> !recording_group_fit(#[trigger] seen[j]),
                Some((s, id)) => {
                    &&& leads(seen, ok, score, at)
                    &&& s == recording_group_score(seen[at])
                    &&& seen[at] matches Some(h) && h.id == Some(id)
                },
            },
        decreases limit - r,
    {
        let rec = &recordings[r];
        proof {
            assert(recordings@.take(r as int + 1).drop_last() =~= recordings@.take(r as int));
        }
        match &rec.releases {
            Some(rels) => {
                let ghost base = seen;
                let mut k: usize = 0;
                while k < rels.len()
                    invariant
                        k <= rels@.len(),
                        rec.releases == Some(*rels),
                        ok == (|g: Option<ReleaseGroupHit>| recording_group_fit(g)),
                        score == (|g: Option<ReleaseGroupHit>| recording_group_score(g)),
                        seen == base + releases_of(*rec).take(k as int),
                        match best {
                            None => forall|j: int| 0 <= j < seen.len() ==> !recording_group_fit(#[trigger] seen[j]),
                            Some((s, id)) => {
                                &&& leads(seen, ok, score, at)
                                &&& s == recording_group_score(seen[at])
                                &&& seen[at] matches Some(h) && h.id == Some(id)
                            },
                        },
                    decreases rels@.len() - k,
                {
                    let g = &rels[k].group;
                    let ghost before = seen;
                    proof {
                        seen = seen.push(*g);
                        assert(releases_of(*rec).take(k as int + 1) =~= releases_of(*rec).take(k as int).push(*g));
                        assert(seen =~= base + releases_of(*rec).take(k as int + 1));
                        assert(forall|j: int| 0 <= j < before.len() ==> seen[j] == before[j]);
                    }
                    match g {
                        Some(h) => {
                            if is_album_exec(h) {
                                match &h.id {
                                    Some(id) => {
                                        let sec = secondary_of(h);
                                        let bonus: i128 = if sec == 0 { 40 } else { 0 };
                                        let adjusted: i128 = 100 - (sec as i128) * 50 + bonus;
                                        assert(adjusted == recording_group_score(*g));
                                        let better = match &best {
                                            Some((s, _)) => adjusted > *s,
                                            None => true,
                                        };
                                        if better {
                                            best = Some((adjusted, id.clone()));
                                            proof {
                                                at = before.len() as int;
                                            }
                                        }
                                    },
                                    None => {},
                                }
                            }
                        },
                        None => {},
                    }
                    k = k + 1;
                }
                assert(releases_of(*rec).take(rels@.len() as int) =~= releases_of(*rec));
            },
            None => {
                assert(releases_of(*rec) =~= Seq::<Option<ReleaseGroupHit>>::empty());
                assert(seen =~= seen + releases_of(*rec));
            },
        }
        r = r + 1;
    }
    assert(seen == searched_groups(recordings@));
    match best {
        Some((_, id)) => {
            assert(searched_groups(recordings@)[at] matches Some(h) && h.id == Some(id));
            proof {
                let k = choose|k: int| leads(seen, ok, score, k);
                lemma_leads_unique(seen, ok, score, at, k);
            }
            Some(id)
        },
        None => {
            assert(!exists|k: int| leads(seen, ok, score, k));
            None
        },
    }
}

} // verus!
