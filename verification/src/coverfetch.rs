//! Fetching one album cover: which Cover Art Archive image and link to take,
//! the two-tier lookup as a machine that says which request comes next, the
//! retry policy for throttled lookups and the on-disk cache's naming. The
//! requests themselves, and the files, are the caller's.
use vstd::prelude::*;
use crate::artscrape::{
    FetchError, ReleaseGroupHit, RecordingHit, best_release_group_rg,
    best_release_group_recording, cover_archive_url, recording_pick, recording_search,
    recording_search_url, release_group_search, release_group_search_url, rg_pick,
};
use crate::state::{base_dir, join_path, opt_chars, path_join};
use crate::text::{chars_of, push_char, sanitize, sanitized};

verus! {

/// What a JSON field holds, as far as a text value is concerned.
pub enum JsonSlot {
    /// The field is not there.
    Missing,
    /// The field holds a string.
    Text(String),
    /// The field holds something else.
    Other,
}

/// What is read of one image of a Cover Art Archive listing.
pub struct CoverImage {
    /// `front`, when it is a boolean.
    pub front: Option<bool>,
    /// `thumbnails."500"`.
    pub thumb_500: JsonSlot,
    /// `thumbnails."large"`.
    pub thumb_large: JsonSlot,
    /// `image`, when it is a string.
    pub image: Option<String>,
}

/// The first image at or after `i` marked as the front cover.
pub open spec fn front_from(imgs: Seq<CoverImage>, i: int) -> Option<int>
    decreases imgs.len() - i,
{
    if i < 0 || i >= imgs.len() {
        None
    } else if imgs[i].front == Some(true) {
        Some(i)
    } else {
        front_from(imgs, i + 1)
    }
}

/// The image to use: the first front cover, else the first image.
pub open spec fn chosen_image(imgs: Seq<CoverImage>) -> Option<int> {
    match front_from(imgs, 0) {
        Some(i) => Some(i),
        None => if imgs.len() > 0 {
            Some(0)
        } else {
            None
        },
    }
}

/// The link of one image: the 500px thumbnail, else (when that is missing)
/// the large one, when the chosen thumbnail is a string; else the full image.
pub open spec fn image_link(img: CoverImage) -> Option<Seq<char>> {
    let slot = match img.thumb_500 {
        JsonSlot::Missing => img.thumb_large,
        s => s,
    };
    match slot {
        JsonSlot::Text(u) => Some(u@),
        _ => match img.image {
            Some(u) => Some(u@),
            None => None,
        },
    }
}

/// `s` with every `http://` replaced by `https://`, scanning left to right.
pub open spec fn https_fixed(s: Seq<char>) -> Seq<char>
    decreases s.len(),
{
    if s.len() == 0 {
        s
    } else if s.len() >= 7 && s.take(7) == "http://"@ {
        "https://"@ + https_fixed(s.skip(7))
    } else {
        seq![s[0]] + https_fixed(s.skip(1))
    }
}

/// The link to download from a Cover Art Archive listing, over https.
pub open spec fn cover_link(imgs: Seq<CoverImage>) -> Option<Seq<char>> {
    match chosen_image(imgs) {
        Some(i) => match image_link(imgs[i]) {
            Some(u) => Some(https_fixed(u)),
            None => None,
        },
        None => None,
    }
}

fn http_at(cs: &Vec<char>, i: usize) -> (b: bool)
    requires
        i <= cs@.len(),
    ensures
        b == (cs@.len() - i >= 7 && cs@.skip(i as int).take(7) == "http://"@),
{
    let lit = chars_of("http://");
    proof {
        reveal_strlit("http://");
    }
    if cs.len() - i < 7 {
        return false;
    }
    let mut k: usize = 0;
    while k < 7
        invariant
            k <= 7,
            i + 7 <= cs@.len() <= usize::MAX,
            lit@ == "http://"@,
            lit@.len() == 7,
            forall|j: int| 0 <= j < k ==> cs@[i + j] == lit@[j],
        decreases 7 - k,
    {
        if cs[i + k] != lit[k] {
            assert(cs@.skip(i as int).take(7)[k as int] != lit@[k as int]);
            return false;
        }
        k = k + 1;
    }
    assert(cs@.skip(i as int).take(7) =~= lit@);
    true
}

/// Replaces every `http://` in `s` by `https://`.
pub fn secure_url(s: &str) -> (out: String)
    ensures
        out@ == https_fixed(s@),
{
    let cs = chars_of(s);
    let n = cs.len();
    let mut out = String::new();
    let mut i: usize = 0;
    assert(cs@.skip(0) =~= cs@);
    assert(out@ + https_fixed(cs@.skip(0)) =~= https_fixed(cs@));
    while i < n
        invariant
            i <= n == cs@.len(),
            cs@ == s@,
            out@ + https_fixed(cs@.skip(i as int)) == https_fixed(cs@),
        decreases n - i,
    {
        let ghost rest = cs@.skip(i as int);
        if http_at(&cs, i) {
            proof {
                reveal_strlit("https://");
                assert(rest.skip(7) =~= cs@.skip(i as int + 7));
            }
            let ghost before = out@;
            out.append("https://");
            assert(out@ + https_fixed(cs@.skip(i as int + 7)) =~= before + https_fixed(rest));
            i = i + 7;
        } else {
            proof {
                assert(rest.skip(1) =~= cs@.skip(i as int + 1));
                assert(rest[0] == cs@[i as int]);
            }
            let ghost before = out@;
            push_char(&mut out, cs[i]);
            assert(out@ + https_fixed(cs@.skip(i as int + 1)) =~= before + https_fixed(rest));
            i = i + 1;
        }
    }
    assert(cs@.skip(n as int) =~= Seq::<char>::empty());
    assert(out@ =~= out@ + https_fixed(cs@.skip(n as int)));
    assert(cs@.skip(0) =~= cs@);
    out
}

fn first_front(images: &Vec<CoverImage>) -> (out: Option<usize>)
    ensures
        match out {
            Some(k) => front_from(images@, 0) == Some(k as int) && k < images@.len(),
            None => front_from(images@, 0) is None,
        },
{
    let mut i: usize = 0;
    while i < images.len()
        invariant
            i <= images@.len(),
            front_from(images@, 0) == front_from(images@, i as int),
        decreases images@.len() - i,
    {
        match images[i].front {
            Some(true) => {
                return Some(i);
            },
            _ => {},
        }
        i = i + 1;
    }
    None
}

fn image_link_exec(img: &CoverImage) -> (out: Option<String>)
    ensures
        opt_chars(out) == image_link(*img),
{
    let slot = match &img.thumb_500 {
        JsonSlot::Missing => &img.thumb_large,
        s => s,
    };
    match slot {
        JsonSlot::Text(u) => Some(u.clone()),
        _ => match &img.image {
            Some(u) => Some(u.clone()),
            None => None,
        },
    }
}

/// The https link of the image to download from a Cover Art Archive listing:
/// the first front cover (else the first image), its 500px or large
/// thumbnail, else its full image; none when there is no such link.
pub fn cover_image_url(images: &Vec<CoverImage>) -> (out: Option<String>)
    ensures
        opt_chars(out) == cover_link(images@),
{
    let found = first_front(images);
    let pick = match found {
        Some(k) => k,
        None => {
            if images.len() == 0 {
                return None;
            }
            0
        },
    };
    match image_link_exec(&images[pick]) {
        Some(u) => Some(secure_url(u.as_str())),
        None => None,
    }
}

} // verus!

verus! {

/// Where a cover lookup stands; every step but `Done` names the request to
/// make next.
pub enum FetchStep {
    /// Search MusicBrainz release groups at this URL.
    SearchGroups(String),
    /// Fetch the Cover Art Archive listing of the release group found by the
    /// release-group search.
    GroupMeta(String),
    /// Download the image chosen from that listing.
    GroupImage(String),
    /// Let `LOOKUP_SPACING_MS` pass since the last MusicBrainz request, then
    /// search recordings at this URL.
    Space(String),
    /// Search MusicBrainz recordings at this URL.
    SearchRecordings(String),
    /// Fetch the Cover Art Archive listing of the release group found by the
    /// recording search.
    RecordingMeta(String),
    /// Download the image chosen from that listing.
    RecordingImage(String),
    /// The lookup is over: the cover's bytes, or why there are none.
    Done(Result<Vec<u8>, FetchError>),
}

/// What came back from the request a step named.
pub enum FetchReply {
    /// Release-group search: the `release-groups` list (none when the reply
    /// has no such list), or the request's error.
    Groups(Result<Option<Vec<ReleaseGroupHit>>, FetchError>),
    /// Recording search: the `recordings` list (none when the reply has no
    /// such list), or the request's error.
    Recordings(Result<Option<Vec<RecordingHit>>, FetchError>),
    /// Cover Art Archive listing: its `images` list; none when the request
    /// failed or the reply has no such list.
    Meta(Option<Vec<CoverImage>>),
    /// Image download: the bytes read; none when the request failed.
    Image(Option<Vec<u8>>),
    /// The wait a `Space` step asked for is over.
    Spaced,
}

/// A `FetchStep` as plain values.
pub enum StepView {
    SearchGroups(Seq<char>),
    GroupMeta(Seq<char>),
    GroupImage(Seq<char>),
    Space(Seq<char>),
    SearchRecordings(Seq<char>),
    RecordingMeta(Seq<char>),
    RecordingImage(Seq<char>),
    Done(Result<Seq<u8>, FetchError>),
}

/// A `FetchReply` as plain values.
pub enum ReplyView {
    Groups(Result<Option<Seq<ReleaseGroupHit>>, FetchError>),
    Recordings(Result<Option<Seq<RecordingHit>>, FetchError>),
    Meta(Option<Seq<CoverImage>>),
    Image(Option<Seq<u8>>),
    Spaced,
}

impl View for FetchStep {
    type V = StepView;

    open spec fn view(&self) -> StepView {
        match self {
            FetchStep::SearchGroups(u) => StepView::SearchGroups(u@),
            FetchStep::GroupMeta(u) => StepView::GroupMeta(u@),
            FetchStep::GroupImage(u) => StepView::GroupImage(u@),
            FetchStep::Space(u) => StepView::Space(u@),
            FetchStep::SearchRecordings(u) => StepView::SearchRecordings(u@),
            FetchStep::RecordingMeta(u) => StepView::RecordingMeta(u@),
            FetchStep::RecordingImage(u) => StepView::RecordingImage(u@),
            FetchStep::Done(Ok(b)) => StepView::Done(Ok(b@)),
            FetchStep::Done(Err(e)) => StepView::Done(Err(*e)),
        }
    }
}

impl View for FetchReply {
    type V = ReplyView;

    open spec fn view(&self) -> ReplyView {
        match self {
            FetchReply::Groups(Ok(Some(v))) => ReplyView::Groups(Ok(Some(v@))),
            FetchReply::Groups(Ok(None)) => ReplyView::Groups(Ok(None)),
            FetchReply::Groups(Err(e)) => ReplyView::Groups(Err(*e)),
            FetchReply::Recordings(Ok(Some(v))) => ReplyView::Recordings(Ok(Some(v@))),
            FetchReply::Recordings(Ok(None)) => ReplyView::Recordings(Ok(None)),
            FetchReply::Recordings(Err(e)) => ReplyView::Recordings(Err(*e)),
            FetchReply::Meta(Some(v)) => ReplyView::Meta(Some(v@)),
            FetchReply::Meta(None) => ReplyView::Meta(None),
            FetchReply::Image(Some(b)) => ReplyView::Image(Some(b@)),
            FetchReply::Image(None) => ReplyView::Image(None),
            FetchReply::Spaced => ReplyView::Spaced,
        }
    }
}

/// The Cover Art Archive listing URL of a release group.
pub open spec fn archive_listing(id: Seq<char>) -> Seq<char> {
    "https://coverartarchive.org/release-group/"@ + id
}

/// The first step of a lookup: the release-group search.
pub open spec fn fetch_begin(artist: Seq<char>, title: Seq<char>) -> StepView {
    StepView::SearchGroups(release_group_search(artist, title))
}

/// The second tier: the recording search, once MusicBrainz has had its
/// breathing space since the release-group search.
pub open spec fn recording_tier(artist: Seq<char>, title: Seq<char>) -> StepView {
    StepView::Space(recording_search(artist, title))
}

/// After an image download: the bytes when there are some, else `miss`.
pub open spec fn after_image(b: Option<Seq<u8>>, miss: StepView) -> StepView {
    match b {
        Some(bytes) => if bytes.len() > 0 {
            StepView::Done(Ok(bytes))
        } else {
            miss
        },
        None => miss,
    }
}

/// The step after `step` got `reply`, for a lookup of `artist` and `title`.
///
/// Tier one searches release groups; a throttled search ends the lookup, any
/// other failure or no fitting group moves on to tier two, as does a group
/// whose listing or image yields nothing. Tier two first waits out the
/// spacing MusicBrainz asks for, then searches recordings; its errors end the
/// lookup as they are, and finding nothing ends it as not found. A reply of
/// the wrong kind, and any reply once done, changes nothing.
pub open spec fn fetch_next(artist: Seq<char>, title: Seq<char>, step: StepView, reply: ReplyView) -> StepView {
    let miss = StepView::Done(Err(FetchError::NotFound));
    match step {
        StepView::SearchGroups(_) => match reply {
            ReplyView::Groups(Err(FetchError::RateLimited)) => StepView::Done(Err(FetchError::RateLimited)),
            ReplyView::Groups(Ok(Some(gs))) => match rg_pick(gs) {
                Some(id) => StepView::GroupMeta(archive_listing(id)),
                None => recording_tier(artist, title),
            },
            ReplyView::Groups(_) => recording_tier(artist, title),
            _ => step,
        },
        StepView::GroupMeta(_) => match reply {
            ReplyView::Meta(Some(imgs)) => match cover_link(imgs) {
                Some(u) => StepView::GroupImage(u),
                None => recording_tier(artist, title),
            },
            ReplyView::Meta(None) => recording_tier(artist, title),
            _ => step,
        },
        StepView::GroupImage(_) => match reply {
            ReplyView::Image(b) => after_image(b, recording_tier(artist, title)),
            _ => step,
        },
        StepView::Space(u) => match reply {
            ReplyView::Spaced => StepView::SearchRecordings(u),
            _ => step,
        },
        StepView::SearchRecordings(_) => match reply {
            ReplyView::Recordings(Err(e)) => StepView::Done(Err(e)),
            ReplyView::Recordings(Ok(Some(rs))) => match recording_pick(rs) {
                Some(id) => StepView::RecordingMeta(archive_listing(id)),
                None => miss,
            },
            ReplyView::Recordings(Ok(None)) => miss,
            _ => step,
        },
        StepView::RecordingMeta(_) => match reply {
            ReplyView::Meta(Some(imgs)) => match cover_link(imgs) {
                Some(u) => StepView::RecordingImage(u),
                None => miss,
            },
            ReplyView::Meta(None) => miss,
            _ => step,
        },
        StepView::RecordingImage(_) => match reply {
            ReplyView::Image(b) => after_image(b, miss),
            _ => step,
        },
        StepView::Done(_) => step,
    }
}

/// The first request of a cover lookup for `artist` and `title`.
pub fn fetch_cover_start(artist: &str, title: &str) -> (out: FetchStep)
    ensures
        out@ == fetch_begin(artist@, title@),
{
    FetchStep::SearchGroups(release_group_search_url(artist, title))
}

fn tier_two(artist: &str, title: &str) -> (out: FetchStep)
    ensures
        out@ == recording_tier(artist@, title@),
{
    FetchStep::Space(recording_search_url(artist, title))
}

fn image_step(b: Option<Vec<u8>>, miss: FetchStep) -> (out: FetchStep)
    ensures
        out@ == after_image(
            match b {
                Some(v) => Some(v@),
                None => None,
            },
            miss@,
        ),
{
    match b {
        Some(bytes) => if bytes.len() > 0 {
            FetchStep::Done(Ok(bytes))
        } else {
            miss
        },
        None => miss,
    }
}

/// Advances a cover lookup of `artist` and `title`: `step` made its request
/// and `reply` is what came back (see `fetch_next`).
pub fn fetch_cover(artist: &str, title: &str, step: FetchStep, reply: FetchReply) -> (out: FetchStep)
    ensures
        out@ == fetch_next(artist@, title@, step@, reply@),
{
    let miss = FetchStep::Done(Err(FetchError::NotFound));
    match step {
        FetchStep::SearchGroups(u) => match reply {
            FetchReply::Groups(Err(FetchError::RateLimited)) => FetchStep::Done(Err(FetchError::RateLimited)),
            FetchReply::Groups(Ok(Some(gs))) => match best_release_group_rg(&gs) {
                Some(id) => FetchStep::GroupMeta(cover_archive_url(id.as_str())),
                None => tier_two(artist, title),
            },
            FetchReply::Groups(_) => tier_two(artist, title),
            _ => FetchStep::SearchGroups(u),
        },
        FetchStep::GroupMeta(u) => match reply {
            FetchReply::Meta(Some(imgs)) => match cover_image_url(&imgs) {
                Some(link) => FetchStep::GroupImage(link),
                None => tier_two(artist, title),
            },
            FetchReply::Meta(None) => tier_two(artist, title),
            _ => FetchStep::GroupMeta(u),
        },
        FetchStep::GroupImage(u) => match reply {
            FetchReply::Image(b) => image_step(b, tier_two(artist, title)),
            _ => FetchStep::GroupImage(u),
        },
        FetchStep::Space(u) => match reply {
            FetchReply::Spaced => FetchStep::SearchRecordings(u),
            _ => FetchStep::Space(u),
        },
        FetchStep::SearchRecordings(u) => match reply {
            FetchReply::Recordings(Err(e)) => FetchStep::Done(Err(e)),
            FetchReply::Recordings(Ok(Some(rs))) => match best_release_group_recording(&rs) {
                Some(id) => FetchStep::RecordingMeta(cover_archive_url(id.as_str())),
                None => miss,
            },
            FetchReply::Recordings(Ok(None)) => miss,
            _ => FetchStep::SearchRecordings(u),
        },
        FetchStep::RecordingMeta(u) => match reply {
            FetchReply::Meta(Some(imgs)) => match cover_image_url(&imgs) {
                Some(link) => FetchStep::RecordingImage(link),
                None => miss,
            },
            FetchReply::Meta(None) => miss,
            _ => FetchStep::RecordingMeta(u),
        },
        FetchStep::RecordingImage(u) => match reply {
            FetchReply::Image(b) => image_step(b, miss),
            _ => FetchStep::RecordingImage(u),
        },
        FetchStep::Done(r) => FetchStep::Done(r),
    }
}

} // verus!

verus! {

/// How far a lookup has come: each request moves it further, `Done` last.
pub open spec fn stage(step: StepView) -> int {
    match step {
        StepView::SearchGroups(_) => 0,
        StepView::GroupMeta(_) => 1,
        StepView::GroupImage(_) => 2,
        StepView::Space(_) => 3,
        StepView::SearchRecordings(_) => 4,
        StepView::RecordingMeta(_) => 5,
        StepView::RecordingImage(_) => 6,
        StepView::Done(_) => 7,
    }
}

/// Whether `reply` is the kind of answer the request of `step` gets.
pub open spec fn answers(step: StepView, reply: ReplyView) -> bool {
    match step {
        StepView::SearchGroups(_) => reply is Groups,
        StepView::GroupMeta(_) => reply is Meta,
        StepView::GroupImage(_) => reply is Image,
        StepView::Space(_) => reply is Spaced,
        StepView::SearchRecordings(_) => reply is Recordings,
        StepView::RecordingMeta(_) => reply is Meta,
        StepView::RecordingImage(_) => reply is Image,
        StepView::Done(_) => false,
    }
}

/// A lookup never goes back: every answered step moves it strictly further,
/// so it ends after at most seven steps (six requests and one wait); once
/// done it stays done, and a reply of the wrong kind leaves it where it is.
pub proof fn lemma_fetch_progress(artist: Seq<char>, title: Seq<char>, step: StepView, reply: ReplyView)
    ensures
        answers(step, reply) ==> stage(fetch_next(artist, title, step, reply)) > stage(step),
        !answers(step, reply) ==> fetch_next(artist, title, step, reply) == step,
{
}

/// A lookup that ends with a cover ends with some bytes: an empty download
/// never counts as found.
pub proof fn lemma_fetch_found_nonempty(artist: Seq<char>, title: Seq<char>, step: StepView, reply: ReplyView)
    requires
        step matches StepView::Done(Ok(b)) ==> b.len() > 0,
    ensures
        fetch_next(artist, title, step, reply) matches StepView::Done(Ok(b)) ==> b.len() > 0,
{
}

/// The two MusicBrainz searches of a lookup are never back to back: a
/// lookup starts with the release-group search, and it comes to the
/// recording search only from the wait that spaces the two.
pub proof fn lemma_searches_spaced(artist: Seq<char>, title: Seq<char>, step: StepView, reply: ReplyView)
    ensures
        fetch_begin(artist, title) is SearchGroups,
        fetch_next(artist, title, step, reply) is SearchRecordings && !(step is SearchRecordings)
            ==> step is Space && reply is Spaced,
        fetch_next(artist, title, step, reply) is SearchGroups ==> fetch_next(artist, title, step, reply) == step,
{
}

/// A downloaded image ends the lookup with its bytes, in either tier: the
/// cover found through the recording search counts as much as one found
/// through the release-group search. An image that fails or comes back empty
/// moves tier one on to the (spaced) recording search and ends tier two as
/// not found.
pub proof fn lemma_image_ends_lookup(artist: Seq<char>, title: Seq<char>, url: Seq<char>, b: Option<Seq<u8>>)
    ensures
        b matches Some(bytes) && bytes.len() > 0 ==> fetch_next(
            artist,
            title,
            StepView::GroupImage(url),
            ReplyView::Image(b),
        ) == StepView::Done(Ok(b->0)),
        b matches Some(bytes) && bytes.len() > 0 ==> fetch_next(
            artist,
            title,
            StepView::RecordingImage(url),
            ReplyView::Image(b),
        ) == StepView::Done(Ok(b->0)),
        !(b matches Some(bytes) && bytes.len() > 0) ==> fetch_next(
            artist,
            title,
            StepView::GroupImage(url),
            ReplyView::Image(b),
        ) == StepView::Space(recording_search(artist, title)),
        !(b matches Some(bytes) && bytes.len() > 0) ==> fetch_next(
            artist,
            title,
            StepView::RecordingImage(url),
            ReplyView::Image(b),
        ) == StepView::Done(Err(FetchError::NotFound)),
{
}

/// The lookup's two tiers in order: it starts with the release-group
/// search; a fitting group goes on to that group's Cover Art Archive
/// listing, and a listing with a usable image to that image; a failed
/// search (but a throttled one), no fitting group, or a listing without an
/// image fall back to tier two after the wait. In tier two a fitting
/// recording goes on to its group's listing and image; a failed recording
/// search ends the lookup with its error, and nothing found ends it as not
/// found.
pub proof fn lemma_lookup_tiers(artist: Seq<char>, title: Seq<char>, url: Seq<char>)
    ensures
        fetch_begin(artist, title) == StepView::SearchGroups(release_group_search(artist, title)),
        forall|gs: Seq<ReleaseGroupHit>|
            #[trigger] rg_pick(gs) matches Some(id) ==> fetch_next(
                artist,
                title,
                StepView::SearchGroups(url),
                ReplyView::Groups(Ok(Some(gs))),
            ) == StepView::GroupMeta(archive_listing(id)),
        forall|gs: Seq<ReleaseGroupHit>|
            #[trigger] rg_pick(gs) is None ==> fetch_next(
                artist,
                title,
                StepView::SearchGroups(url),
                ReplyView::Groups(Ok(Some(gs))),
            ) == StepView::Space(recording_search(artist, title)),
        fetch_next(artist, title, StepView::SearchGroups(url), ReplyView::Groups(Ok(None)))
            == StepView::Space(recording_search(artist, title)),
        fetch_next(artist, title, StepView::SearchGroups(url), ReplyView::Groups(Err(FetchError::NotFound)))
            == StepView::Space(recording_search(artist, title)),
        forall|imgs: Seq<CoverImage>|
            #[trigger] cover_link(imgs) matches Some(u) ==> fetch_next(
                artist,
                title,
                StepView::GroupMeta(url),
                ReplyView::Meta(Some(imgs)),
            ) == StepView::GroupImage(u) && fetch_next(
                artist,
                title,
                StepView::RecordingMeta(url),
                ReplyView::Meta(Some(imgs)),
            ) == StepView::RecordingImage(u),
        forall|imgs: Seq<CoverImage>|
            #[trigger] cover_link(imgs) is None ==> fetch_next(
                artist,
                title,
                StepView::GroupMeta(url),
                ReplyView::Meta(Some(imgs)),
            ) == StepView::Space(recording_search(artist, title)) && fetch_next(
                artist,
                title,
                StepView::RecordingMeta(url),
                ReplyView::Meta(Some(imgs)),
            ) == StepView::Done(Err(FetchError::NotFound)),
        fetch_next(artist, title, StepView::GroupMeta(url), ReplyView::Meta(None)) == StepView::Space(
            recording_search(artist, title),
        ),
        fetch_next(artist, title, StepView::RecordingMeta(url), ReplyView::Meta(None)) == StepView::Done(
            Err(FetchError::NotFound),
        ),
        fetch_next(artist, title, StepView::Space(url), ReplyView::Spaced) == StepView::SearchRecordings(url),
        forall|rs: Seq<RecordingHit>|
            #[trigger] recording_pick(rs) matches Some(id) ==> fetch_next(
                artist,
                title,
                StepView::SearchRecordings(url),
                ReplyView::Recordings(Ok(Some(rs))),
            ) == StepView::RecordingMeta(archive_listing(id)),
        forall|rs: Seq<RecordingHit>|
            #[trigger] recording_pick(rs) is None ==> fetch_next(
                artist,
                title,
                StepView::SearchRecordings(url),
                ReplyView::Recordings(Ok(Some(rs))),
            ) == StepView::Done(Err(FetchError::NotFound)),
        fetch_next(artist, title, StepView::SearchRecordings(url), ReplyView::Recordings(Ok(None)))
            == StepView::Done(Err(FetchError::NotFound)),
        forall|e: FetchError|
            #[trigger] fetch_next(artist, title, StepView::SearchRecordings(url), ReplyView::Recordings(Err(e)))
                == StepView::Done(Err(e)),
{
}

proof fn lemma_front_from(imgs: Seq<CoverImage>, i: int)
    requires
        0 <= i,
    ensures
        match front_from(imgs, i) {
            Some(k) => i <= k < imgs.len() && imgs[k].front == Some(true) && forall|j: int|
                i <= j < k ==> imgs[j].front != Some(true),
            None => forall|j: int| i <= j < imgs.len() ==> imgs[j].front != Some(true),
        },
    decreases imgs.len() - i,
{
    if i < imgs.len() && imgs[i].front != Some(true) {
        lemma_front_from(imgs, i + 1);
    }
}

/// The image taken from a Cover Art Archive listing is the first one marked
/// as the front cover; when none is marked, the first image; with no images,
/// none. Its link is the 500px thumbnail, else the large thumbnail when the
/// 500px one is missing, else the full image, always over https.
pub proof fn lemma_front_cover_first(imgs: Seq<CoverImage>)
    ensures
        chosen_image(imgs) is None <==> imgs.len() == 0,
        chosen_image(imgs) matches Some(k) ==> 0 <= k < imgs.len(),
        (exists|j: int| 0 <= j < imgs.len() && imgs[j].front == Some(true)) ==> (chosen_image(imgs) matches Some(
            k,
        ) && imgs[k].front == Some(true) && forall|j: int| 0 <= j < k ==> imgs[j].front != Some(true)),
        !(exists|j: int| 0 <= j < imgs.len() && imgs[j].front == Some(true)) && imgs.len() > 0
            ==> chosen_image(imgs) == Some(0int),
        forall|img: CoverImage|
            (#[trigger] image_link(img) == match (img.thumb_500, img.thumb_large, img.image) {
                (JsonSlot::Text(u), _, _) => Some(u@),
                (JsonSlot::Missing, JsonSlot::Text(u), _) => Some(u@),
                (_, _, Some(u)) => Some(u@),
                _ => None,
            }),
        forall|u: Seq<char>| #[trigger] https_fixed("http://"@ + u) == "https://"@ + https_fixed(u),
{
    lemma_front_from(imgs, 0);
    assert forall|u: Seq<char>| #[trigger] https_fixed("http://"@ + u) == "https://"@ + https_fixed(u) by {
        reveal_strlit("http://");
        let s = "http://"@ + u;
        assert(s.take(7) =~= "http://"@);
        assert(s.skip(7) =~= u);
    }
}

/// A throttled release-group search ends the lookup as throttled, so the
/// caller can back off and retry it.
pub proof fn lemma_fetch_throttled(artist: Seq<char>, title: Seq<char>, url: Seq<char>)
    ensures
        fetch_next(
            artist,
            title,
            StepView::SearchGroups(url),
            ReplyView::Groups(Err(FetchError::RateLimited)),
        ) == StepView::Done(Err(FetchError::RateLimited)),
{
}

/// What to do with the outcome of one lookup attempt.
#[derive(Clone, Copy, Debug, PartialEq, Eq, Structural)]
pub enum RetryDecision {
    /// A cover came back: keep it.
    Accept,
    /// Throttled: wait this many milliseconds, then try again.
    Retry(u64),
    /// Nothing to be had (not found, empty, or out of retries).
    GiveUp,
}

/// The backoff before retry number `attempt + 1`: one second, doubling.
pub open spec fn backoff_ms(attempt: nat) -> nat
    decreases attempt,
{
    if attempt == 0 {
        1000
    } else {
        2 * backoff_ms((attempt - 1) as nat)
    }
}

/// How many lookup attempts an album gets.
pub const MAX_ATTEMPTS: u32 = 4;

/// The decision after attempt number `attempt` (from 0) ended with
/// `outcome`: bytes are accepted, a throttle is retried after the backoff
/// while attempts remain, anything else gives up.
pub fn retry_decision(outcome: &Result<Vec<u8>, FetchError>, attempt: u32) -> (d: RetryDecision)
    requires
        attempt < MAX_ATTEMPTS,
    ensures
        d == match outcome {
            Ok(b) => if b@.len() > 0 {
                RetryDecision::Accept
            } else {
                RetryDecision::GiveUp
            },
            Err(FetchError::RateLimited) => if attempt + 1 < MAX_ATTEMPTS {
                RetryDecision::Retry(backoff_ms(attempt as nat) as u64)
            } else {
                RetryDecision::GiveUp
            },
            Err(FetchError::NotFound) => RetryDecision::GiveUp,
        },
{
    match outcome {
        Ok(b) => if b.len() > 0 {
            RetryDecision::Accept
        } else {
            RetryDecision::GiveUp
        },
        Err(FetchError::RateLimited) => if attempt + 1 < MAX_ATTEMPTS {
            let mut wait: u64 = 1000;
            let mut k: u32 = 0;
            while k < attempt
                invariant
                    k <= attempt < 3,
                    wait == backoff_ms(k as nat),
                    k == 0 ==> wait == 1000,
                    k == 1 ==> wait == 2000,
                    k == 2 ==> wait == 4000,
                decreases attempt - k,
            {
                wait = wait * 2;
                k = k + 1;
            }
            RetryDecision::Retry(wait)
        } else {
            RetryDecision::GiveUp
        },
        Err(FetchError::NotFound) => RetryDecision::GiveUp,
    }
}

/// Each throttled retry waits twice as long as the one before.
pub proof fn lemma_backoff_doubles(attempt: nat)
    ensures
        backoff_ms(attempt + 1) == 2 * backoff_ms(attempt),
{
}

/// The least time between two MusicBrainz requests, in milliseconds.
pub const LOOKUP_SPACING_MS: u64 = 1500;

/// How long to wait before the next MusicBrainz request when `elapsed_ms`
/// have passed since the last one.
pub fn lookup_wait_ms(elapsed_ms: u64) -> (w: u64)
    ensures
        w == if elapsed_ms >= LOOKUP_SPACING_MS {
            0
        } else {
            LOOKUP_SPACING_MS - elapsed_ms
        },
{
    LOOKUP_SPACING_MS.saturating_sub(elapsed_ms)
}

/// What the disk cache says about an album.
pub enum CacheVerdict {
    /// Marked as having no cover: skip it.
    KnownMiss,
    /// A cover is cached: use these bytes.
    Cached(Vec<u8>),
    /// Nothing usable is cached: look it up.
    Lookup,
}

/// The cache's verdict from whether the no-cover marker exists and what
/// reading the cached image gave (none when it could not be read). The marker
/// wins; an empty cached file does not count.
pub fn cache_verdict(miss_marked: bool, cached: Option<Vec<u8>>) -> (v: CacheVerdict)
    ensures
        miss_marked ==> v is KnownMiss,
        !miss_marked ==> match cached {
            Some(b) => if b@.len() > 0 {
                v matches CacheVerdict::Cached(c) && c@ == b@
            } else {
                v is Lookup
            },
            None => v is Lookup,
        },
{
    if miss_marked {
        return CacheVerdict::KnownMiss;
    }
    match cached {
        Some(b) => if b.len() > 0 {
            CacheVerdict::Cached(b)
        } else {
            CacheVerdict::Lookup
        },
        None => CacheVerdict::Lookup,
    }
}

/// The cache file of a key with the given extension: the sanitized key, a
/// dot, the extension.
pub open spec fn cache_file_name(key: Seq<char>, ext: Seq<char>) -> Seq<char> {
    sanitized(key) + seq!['.'] + ext
}

/// The file that caches a key's cover image.
pub fn image_cache_name(key: &str) -> (out: String)
    ensures
        out@ == cache_file_name(key@, "img"@),
{
    let mut out = sanitize(key);
    push_char(&mut out, '.');
    out.append("img");
    out
}

/// The file that marks a key as having no cover.
pub fn miss_cache_name(key: &str) -> (out: String)
    ensures
        out@ == cache_file_name(key@, "none"@),
{
    let mut out = sanitize(key);
    push_char(&mut out, '.');
    out.append("none");
    out
}

/// The cover cache directory, from `$XDG_CACHE_HOME` and `$HOME`:
/// `<cache>/cosmic-cassette-deck/covers`, none when neither is set.
pub fn cache_dir(xdg_cache_home: Option<String>, home: Option<String>) -> (out: Option<String>)
    ensures
        match base_dir(opt_chars(xdg_cache_home), opt_chars(home), ".cache"@) {
            Some(b) => out matches Some(o) && o@ == path_join(
                path_join(b, "cosmic-cassette-deck"@),
                "covers"@,
            ),
            None => out is None,
        },
{
    let base = match xdg_cache_home {
        Some(x) => x,
        None => match home {
            Some(h) => join_path(h, ".cache"),
            None => return None,
        },
    };
    Some(join_path(join_path(base, "cosmic-cassette-deck"), "covers"))
}

} // verus!
