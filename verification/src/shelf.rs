//! Arranging scanned tracks into the rack: one cassette per (artist, album),
//! cassettes in (artist, album) order, each album's tracks in track-number
//! order (then by title), ties kept in scan order.
use vstd::prelude::*;
use crate::library::{Album, Track};
use crate::order::{chars_less, chars_lt, lemma_chars_lt_irreflexive, lemma_chars_lt_total, lemma_chars_lt_transitive};
use crate::text::chars_of;

verus! {

/// One audio file as the scan read it, with its settled album identity.
pub struct ScannedTrack {
    pub artist: String,
    pub album: String,
    pub track: Track,
    /// The file's embedded cover, if any.
    pub art: Option<Vec<u8>>,
}

/// Whether track `a` plays before track `b`: lower number first, then by
/// title.
pub open spec fn track_lt(a: Track, b: Track) -> bool {
    a.number < b.number || (a.number == b.number && chars_lt(a.title@, b.title@))
}

/// Whether `a` has track number `n` and title `t`.
pub open spec fn has_track_key(a: Track, n: u32, t: Seq<char>) -> bool {
    a.number == n && a.title@ == t
}

/// The tracks of `s` with number `n` and title `t`, in order.
pub open spec fn with_key(s: Seq<Track>, n: u32, t: Seq<char>) -> Seq<Track>
    decreases s.len(),
{
    if s.len() == 0 {
        Seq::empty()
    } else {
        let r = with_key(s.drop_last(), n, t);
        if has_track_key(s.last(), n, t) {
            r.push(s.last())
        } else {
            r
        }
    }
}

/// Whether no track of `s` plays before an earlier one.
pub open spec fn tracks_sorted(s: Seq<Track>) -> bool {
    forall|i: int, j: int| 0 <= i < j < s.len() ==> !track_lt(#[trigger] s[j], #[trigger] s[i])
}

/// `s` is `x` in play order: sorted, and for every number and title the
/// tracks that share them come in the order they had in `x` (a stable sort).
pub open spec fn play_order(s: Seq<Track>, x: Seq<Track>) -> bool {
    &&& tracks_sorted(s)
    &&& forall|n: u32, t: Seq<char>| #[trigger] with_key(s, n, t) == with_key(x, n, t)
}

proof fn lemma_track_lt(a: Track, b: Track, c: Track)
    ensures
        !track_lt(a, a),
        !(track_lt(a, b) && track_lt(b, a)),
        track_lt(a, b) && track_lt(b, c) ==> track_lt(a, c),
        !track_lt(a, b) && !track_lt(b, a) ==> a.number == b.number && a.title@ == b.title@,
        track_lt(a, b) && b.number == c.number && b.title@ == c.title@ ==> track_lt(a, c),
{
    lemma_chars_lt_irreflexive(a.title@);
    lemma_chars_lt_total(a.title@, b.title@);
    if track_lt(a, b) && track_lt(b, c) && a.number == b.number && b.number == c.number {
        lemma_chars_lt_transitive(a.title@, b.title@, c.title@);
    }
}

proof fn lemma_with_key_add(a: Seq<Track>, b: Seq<Track>, n: u32, t: Seq<char>)
    ensures
        with_key(a + b, n, t) == with_key(a, n, t) + with_key(b, n, t),
    decreases b.len(),
{
    if b.len() == 0 {
        assert(a + b =~= a);
        assert(with_key(a, n, t) + with_key(b, n, t) =~= with_key(a, n, t));
    } else {
        lemma_with_key_add(a, b.drop_last(), n, t);
        assert((a + b).drop_last() =~= a + b.drop_last());
        assert((a + b).last() == b.last());
        if has_track_key(b.last(), n, t) {
            assert(with_key(a, n, t) + with_key(b.drop_last(), n, t).push(b.last()) =~= (with_key(
                a,
                n,
                t,
            ) + with_key(b.drop_last(), n, t)).push(b.last()));
        }
    }
}

proof fn lemma_with_key_push(s: Seq<Track>, x: Track, n: u32, t: Seq<char>)
    ensures
        with_key(s.push(x), n, t) == if has_track_key(x, n, t) {
            with_key(s, n, t).push(x)
        } else {
            with_key(s, n, t)
        },
{
    assert(s.push(x).drop_last() =~= s);
}

proof fn lemma_with_key_none(s: Seq<Track>, n: u32, t: Seq<char>)
    requires
        forall|j: int| 0 <= j < s.len() ==> !has_track_key(#[trigger] s[j], n, t),
    ensures
        with_key(s, n, t) == Seq::<Track>::empty(),
    decreases s.len(),
{
    if s.len() > 0 {
        let d = s.drop_last();
        assert(forall|j: int| 0 <= j < d.len() ==> d[j] == s[j]);
        lemma_with_key_none(d, n, t);
    }
}

proof fn lemma_insert_sorted(s: Seq<Track>, q: int, x: Track)
    requires
        tracks_sorted(s),
        0 <= q <= s.len(),
        forall|j: int| 0 <= j < q ==> !track_lt(x, #[trigger] s[j]),
        q < s.len() ==> track_lt(x, s[q]),
    ensures
        tracks_sorted(s.insert(q, x)),
        forall|n: u32, t: Seq<char>|
            #[trigger] with_key(s.insert(q, x), n, t) == if has_track_key(x, n, t) {
                with_key(s, n, t).push(x)
            } else {
                with_key(s, n, t)
            },
{
    let a = s.take(q);
    let b = s.skip(q);
    let r = s.insert(q, x);
    assert(s =~= a + b);
    assert(r =~= a.push(x) + b);
    assert forall|j: int| 0 <= j < b.len() implies track_lt(x, #[trigger] b[j]) by {
        assert(b[j] == s[q + j]);
        if j > 0 {
            assert(!track_lt(s[q + j], s[q]));
            lemma_track_lt(x, s[q], s[q + j]);
            lemma_track_lt(s[q], s[q + j], x);
        }
    }
    assert forall|i: int, j: int| 0 <= i < j < r.len() implies !track_lt(#[trigger] r[j], #[trigger] r[i]) by {
        if j < q {
            assert(r[i] == s[i] && r[j] == s[j]);
        } else if j == q {
            assert(r[i] == s[i] && r[j] == x);
        } else if i < q {
            assert(r[i] == s[i] && r[j] == s[j - 1]);
        } else if i == q {
            assert(r[i] == x && r[j] == b[j - q - 1]);
            lemma_track_lt(x, b[j - q - 1], x);
        } else {
            assert(r[i] == s[i - 1] && r[j] == s[j - 1]);
        }
    }
    assert forall|n: u32, t: Seq<char>| #[trigger] with_key(r, n, t) == if has_track_key(x, n, t) {
        with_key(s, n, t).push(x)
    } else {
        with_key(s, n, t)
    } by {
        lemma_with_key_add(a.push(x), b, n, t);
        lemma_with_key_add(a, b, n, t);
        lemma_with_key_push(a, x, n, t);
        if has_track_key(x, n, t) {
            assert forall|j: int| 0 <= j < b.len() implies !has_track_key(#[trigger] b[j], n, t) by {
                lemma_track_lt(x, b[j], x);
                if has_track_key(b[j], n, t) {
                    lemma_track_lt(x, x, b[j]);
                }
            }
            lemma_with_key_none(b, n, t);
            assert(with_key(a, n, t).push(x) + Seq::<Track>::empty() =~= (with_key(a, n, t)
                + Seq::<Track>::empty()).push(x));
        }
    }
}

/// Whether track `a` plays before track `b`.
fn track_less(a: &Track, b: &Track) -> (r: bool)
    ensures
        r == track_lt(*a, *b),
{
    if a.number != b.number {
        a.number < b.number
    } else {
        let x = chars_of(a.title.as_str());
        let y = chars_of(b.title.as_str());
        chars_less(&x, &y)
    }
}

/// Puts tracks in play order: by track number, then title; tracks that tie
/// on both keep the order they came in.
pub fn sort_tracks(tracks: Vec<Track>) -> (out: Vec<Track>)
    ensures
        play_order(out@, tracks@),
{
    let ghost x = tracks@;
    let mut out: Vec<Track> = Vec::new();
    assert(x.take(0) =~= Seq::<Track>::empty());
    for tr in it: tracks.into_iter()
        invariant
            it.seq() == x,
            tracks_sorted(out@),
            forall|n: u32, t: Seq<char>| #[trigger] with_key(out@, n, t) == with_key(x.take(it.index() as int), n, t),
    {
        let mut q: usize = 0;
        while q < out.len() && !track_less(&tr, &out[q])
            invariant
                q <= out@.len(),
                forall|j: int| 0 <= j < q ==> !track_lt(tr, #[trigger] out@[j]),
            decreases out@.len() - q,
        {
            q = q + 1;
        }
        proof {
            lemma_insert_sorted(out@, q as int, tr);
            let i = it.index() as int;
            assert(x.take(i + 1) =~= x.take(i).push(x[i]));
            assert forall|n: u32, t: Seq<char>| #[trigger] with_key(x.take(i + 1), n, t) == if has_track_key(x[i], n, t) {
                with_key(x.take(i), n, t).push(x[i])
            } else {
                with_key(x.take(i), n, t)
            } by {
                lemma_with_key_push(x.take(i), x[i], n, t);
            }
        }
        out.insert(q, tr);
    }
    assert(x.take(x.len() as int) =~= x);
    out
}


/// The (artist, album) a scanned track files under.
pub open spec fn entry_key(e: ScannedTrack) -> (Seq<char>, Seq<char>) {
    (e.artist@, e.album@)
}

/// The (artist, album) of a cassette.
pub open spec fn album_key(a: Album) -> (Seq<char>, Seq<char>) {
    (a.artist@, a.title@)
}

/// Whether key `a` shelves before key `b`: by artist, then album.
pub open spec fn key_lt(a: (Seq<char>, Seq<char>), b: (Seq<char>, Seq<char>)) -> bool {
    chars_lt(a.0, b.0) || (a.0 == b.0 && chars_lt(a.1, b.1))
}

/// The tracks filed under key `k`, in scan order.
pub open spec fn tracks_of(es: Seq<ScannedTrack>, k: (Seq<char>, Seq<char>)) -> Seq<Track>
    decreases es.len(),
{
    if es.len() == 0 {
        Seq::empty()
    } else {
        let r = tracks_of(es.drop_last(), k);
        if entry_key(es.last()) == k {
            r.push(es.last().track)
        } else {
            r
        }
    }
}

/// The cover of key `k`: that of the first track filed under it (in scan
/// order) that has one.
pub open spec fn art_of(es: Seq<ScannedTrack>, k: (Seq<char>, Seq<char>)) -> Option<Vec<u8>>
    decreases es.len(),
{
    if es.len() == 0 {
        None
    } else {
        let r = art_of(es.drop_last(), k);
        if r is Some {
            r
        } else if entry_key(es.last()) == k {
            es.last().art
        } else {
            None
        }
    }
}

proof fn lemma_key_lt(a: (Seq<char>, Seq<char>), b: (Seq<char>, Seq<char>), c: (Seq<char>, Seq<char>))
    ensures
        !key_lt(a, a),
        !(key_lt(a, b) && key_lt(b, a)),
        key_lt(a, b) && key_lt(b, c) ==> key_lt(a, c),
        a != b ==> key_lt(a, b) || key_lt(b, a),
{
    lemma_chars_lt_irreflexive(a.0);
    lemma_chars_lt_irreflexive(a.1);
    lemma_chars_lt_total(a.0, b.0);
    lemma_chars_lt_total(a.1, b.1);
    if key_lt(a, b) && key_lt(b, c) {
        if chars_lt(a.0, b.0) && chars_lt(b.0, c.0) {
            lemma_chars_lt_transitive(a.0, b.0, c.0);
        }
        if a.0 == b.0 && b.0 == c.0 && chars_lt(a.1, b.1) && chars_lt(b.1, c.1) {
            lemma_chars_lt_transitive(a.1, b.1, c.1);
        }
    }
}

proof fn lemma_step_entries(es: Seq<ScannedTrack>, e: ScannedTrack, k: (Seq<char>, Seq<char>))
    ensures
        tracks_of(es.push(e), k) == if entry_key(e) == k {
            tracks_of(es, k).push(e.track)
        } else {
            tracks_of(es, k)
        },
        art_of(es.push(e), k) == if art_of(es, k) is Some {
            art_of(es, k)
        } else if entry_key(e) == k {
            e.art
        } else {
            None
        },
{
    assert(es.push(e).drop_last() =~= es);
}

proof fn lemma_no_tracks_no_art(es: Seq<ScannedTrack>, k: (Seq<char>, Seq<char>))
    requires
        tracks_of(es, k).len() == 0,
    ensures
        art_of(es, k) is None,
    decreases es.len(),
{
    if es.len() > 0 {
        lemma_no_tracks_no_art(es.drop_last(), k);
    }
}

/// Whether the cassettes' keys strictly increase along the shelf.
pub open spec fn shelf_sorted(albums: Seq<Album>) -> bool {
    forall|i: int, j: int| 0 <= i < j < albums.len() ==> key_lt(album_key(#[trigger] albums[i]), album_key(#[trigger] albums[j]))
}

/// The shelf holds exactly the keys of the scanned tracks, each cassette with
/// its cover; `arranged` says whether the tracks are in play order yet.
pub open spec fn shelf_matches(albums: Seq<Album>, es: Seq<ScannedTrack>, arranged: bool) -> bool {
    &&& shelf_sorted(albums)
    &&& forall|i: int| 0 <= i < albums.len() ==> {
        &&& tracks_of(es, album_key(#[trigger] albums[i])).len() > 0
        &&& albums[i].art == art_of(es, album_key(albums[i]))
        &&& if arranged {
            play_order(albums[i].tracks@, tracks_of(es, album_key(albums[i])))
        } else {
            albums[i].tracks@ == tracks_of(es, album_key(albums[i]))
        }
    }
    &&& forall|k: (Seq<char>, Seq<char>)| #[trigger] tracks_of(es, k).len() > 0 ==> exists|i: int| 0 <= i < albums.len() && album_key(#[trigger] albums[i]) == k
}

fn key_less(a_artist: &String, a_album: &String, b_artist: &String, b_album: &String) -> (r: bool)
    ensures
        r == key_lt((a_artist@, a_album@), (b_artist@, b_album@)),
{
    let x = chars_of(a_artist.as_str());
    let y = chars_of(b_artist.as_str());
    if chars_less(&x, &y) {
        true
    } else if *a_artist == *b_artist {
        let u = chars_of(a_album.as_str());
        let v = chars_of(b_album.as_str());
        chars_less(&u, &v)
    } else {
        false
    }
}

/// Files one scanned track onto the shelf.
fn file_track(albums: &mut Vec<Album>, e: ScannedTrack, Ghost(es): Ghost<Seq<ScannedTrack>>)
    requires
        shelf_matches(old(albums)@, es, false),
    ensures
        shelf_matches(final(albums)@, es.push(e), false),
{
    let ghost k = entry_key(e);
    let mut p: usize = 0;
    let mut go = true;
    while p < albums.len() && go
        invariant
            p <= albums@.len(),
            albums@ == old(albums)@,
            k == entry_key(e),
            forall|j: int| 0 <= j < p ==> key_lt(album_key(#[trigger] albums@[j]), k),
            !go ==> p < albums@.len() && !key_lt(album_key(albums@[p as int]), k),
        decreases albums@.len() - p + (if go { 1int } else { 0int }),
    {
        if key_less(&albums[p].artist, &albums[p].title, &e.artist, &e.album) {
            p = p + 1;
        } else {
            go = false;
        }
    }
    let ghost old_albums = albums@;
    proof {
        assert forall|kk: (Seq<char>, Seq<char>)| #[trigger] tracks_of(es.push(e), kk).len() > 0 && kk != k implies tracks_of(es, kk).len() > 0 by {
            lemma_step_entries(es, e, kk);
        }
    }
    if p < albums.len() && albums[p].artist == e.artist && albums[p].title == e.album {
        let mut alb = albums.remove(p);
        let ScannedTrack { artist: _, album: _, track, art } = e;
        alb.tracks.push(track);
        if alb.art.is_none() {
            alb.art = art;
        }
        albums.insert(p, alb);
        proof {
            assert(albums@ =~= old_albums.update(p as int, alb));
            assert forall|i: int| 0 <= i < albums@.len() implies {
                &&& tracks_of(es.push(e), album_key(#[trigger] albums@[i])).len() > 0
                &&& albums@[i].art == art_of(es.push(e), album_key(albums@[i]))
                &&& albums@[i].tracks@ == tracks_of(es.push(e), album_key(albums@[i]))
            } by {
                lemma_step_entries(es, e, album_key(albums@[i]));
                if i != p {
                    assert(albums@[i] == old_albums[i]);
                    assert(album_key(old_albums[i]) != k) by {
                        if i < p {
                            lemma_key_lt(album_key(old_albums[i]), album_key(old_albums[p as int]), k);
                        } else {
                            lemma_key_lt(album_key(old_albums[p as int]), album_key(old_albums[i]), k);
                        }
                    }
                }
            }
            assert forall|kk: (Seq<char>, Seq<char>)| #[trigger] tracks_of(es.push(e), kk).len() > 0 implies exists|i: int| 0 <= i < albums@.len() && album_key(#[trigger] albums@[i]) == kk by {
                if kk == k {
                    assert(album_key(albums@[p as int]) == kk);
                } else {
                    let i = choose|i: int| 0 <= i < old_albums.len() && album_key(#[trigger] old_albums[i]) == kk;
                    assert(album_key(albums@[i]) == kk);
                }
            }
        }
    } else {
        proof {
            // No cassette has this key yet.
            if p < old_albums.len() {
                lemma_key_lt(album_key(old_albums[p as int]), k, k);
            }
            assert forall|j: int| 0 <= j < old_albums.len() implies album_key(#[trigger] old_albums[j]) != k by {
                lemma_key_lt(k, k, k);
                if j < p {
                } else if j == p {
                } else {
                    lemma_key_lt(album_key(old_albums[p as int]), album_key(old_albums[j]), k);
                    lemma_key_lt(k, album_key(old_albums[p as int]), album_key(old_albums[j]));
                }
            }
            assert(tracks_of(es, k).len() == 0);
            lemma_no_tracks_no_art(es, k);
            lemma_step_entries(es, e, k);
        }
        let ScannedTrack { artist, album, track, art } = e;
        let mut tracks: Vec<Track> = Vec::new();
        tracks.push(track);
        let alb = Album { title: album, artist, art, tracks };
        albums.insert(p, alb);
        proof {
            assert(tracks_of(es, k) =~= Seq::<Track>::empty());
            assert(alb.tracks@ =~= tracks_of(es.push(e), k));
            let r = albums@;
            assert(r =~= old_albums.insert(p as int, alb));
            assert forall|i: int, j: int| 0 <= i < j < r.len() implies key_lt(album_key(#[trigger] r[i]), album_key(#[trigger] r[j])) by {
                if j < p {
                    assert(r[i] == old_albums[i] && r[j] == old_albums[j]);
                } else if j == p {
                    assert(r[i] == old_albums[i]);
                } else if i < p {
                    assert(r[i] == old_albums[i] && r[j] == old_albums[j - 1]);
                } else if i == p {
                    assert(r[j] == old_albums[j - 1]);
                    lemma_key_lt(album_key(old_albums[p as int]), album_key(old_albums[j - 1]), k);
                    lemma_key_lt(k, album_key(old_albums[p as int]), album_key(old_albums[j - 1]));
                    lemma_key_lt(album_key(old_albums[p as int]), k, k);
                } else {
                    assert(r[i] == old_albums[i - 1] && r[j] == old_albums[j - 1]);
                }
            }
            assert forall|i: int| 0 <= i < r.len() implies {
                &&& tracks_of(es.push(e), album_key(#[trigger] r[i])).len() > 0
                &&& r[i].art == art_of(es.push(e), album_key(r[i]))
                &&& r[i].tracks@ == tracks_of(es.push(e), album_key(r[i]))
            } by {
                lemma_step_entries(es, e, album_key(r[i]));
                if i < p {
                    assert(r[i] == old_albums[i]);
                } else if i > p {
                    assert(r[i] == old_albums[i - 1]);
                }
            }
            assert forall|kk: (Seq<char>, Seq<char>)| #[trigger] tracks_of(es.push(e), kk).len() > 0 implies exists|i: int| 0 <= i < r.len() && album_key(#[trigger] r[i]) == kk by {
                if kk == k {
                    assert(album_key(r[p as int]) == kk);
                } else {
                    let i = choose|i: int| 0 <= i < old_albums.len() && album_key(#[trigger] old_albums[i]) == kk;
                    if i < p {
                        assert(album_key(r[i]) == kk);
                    } else {
                        assert(album_key(r[i + 1]) == kk);
                    }
                }
            }
        }
    }
}

/// Groups scanned tracks into cassettes: one per (artist, album), in
/// (artist, album) order; each cassette's tracks in play order and its cover
/// that of its first track with one.
pub fn group_albums(entries: Vec<ScannedTrack>) -> (out: Vec<Album>)
    ensures
        shelf_matches(out@, entries@, true),
{
    let ghost x = entries@;
    let mut albums: Vec<Album> = Vec::new();
    assert(x.take(0) =~= Seq::<ScannedTrack>::empty());
    for e in it: entries.into_iter()
        invariant
            it.seq() == x,
            shelf_matches(albums@, x.take(it.index() as int), false),
    {
        proof {
            let i = it.index() as int;
            assert(x.take(i + 1) =~= x.take(i).push(x[i]));
        }
        file_track(&mut albums, e, Ghost(x.take(it.index() as int)));
    }
    assert(x.take(x.len() as int) =~= x);
    let n = albums.len();
    let mut i: usize = 0;
    while i < n
        invariant
            n == albums@.len(),
            i <= n,
            shelf_sorted(albums@),
            forall|j: int| 0 <= j < n ==> {
                &&& tracks_of(x, album_key(#[trigger] albums@[j])).len() > 0
                &&& albums@[j].art == art_of(x, album_key(albums@[j]))
                &&& if j < i {
                    play_order(albums@[j].tracks@, tracks_of(x, album_key(albums@[j])))
                } else {
                    albums@[j].tracks@ == tracks_of(x, album_key(albums@[j]))
                }
            },
            forall|k: (Seq<char>, Seq<char>)| #[trigger] tracks_of(x, k).len() > 0 ==> exists|j: int| 0 <= j < albums@.len() && album_key(#[trigger] albums@[j]) == k,
        decreases n - i,
    {
        let ghost before = albums@;
        let alb = albums.remove(i);
        let Album { title, artist, art, tracks } = alb;
        let sorted = sort_tracks(tracks);
        let fixed = Album { title, artist, art, tracks: sorted };
        albums.insert(i, fixed);
        proof {
            assert(albums@ =~= before.update(i as int, fixed));
            assert(album_key(fixed) == album_key(before[i as int]));
            assert forall|kk: (Seq<char>, Seq<char>)| #[trigger] tracks_of(x, kk).len() > 0 implies exists|j: int| 0 <= j < albums@.len() && album_key(#[trigger] albums@[j]) == kk by {
                let j = choose|j: int| 0 <= j < before.len() && album_key(#[trigger] before[j]) == kk;
                assert(album_key(albums@[j]) == kk);
            }
        }
        i = i + 1;
    }
    albums
}

} // verus!
