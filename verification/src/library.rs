//! The music library: which files are audio, how a track's artist, album,
//! title and number are settled from its tags and its filename, and how
//! tracks group into albums.
use vstd::prelude::*;
use crate::text::{chars_of, push_char};
use crate::state::{
    all_digits, digits_value, is_ws, skip_ws, drop_ws_end, path_eq, same_path, string_of_range, trim,
    trim_start, trim_range,
};

verus! {

/// One playable file.
pub struct Track {
    /// The song title.
    pub title: String,
    /// Where the file is.
    pub path: String,
    /// The running time in milliseconds.
    pub duration_ms: u64,
    /// The track number (0 when unknown).
    pub number: u32,
}

/// One cassette on the shelf: the tracks of one artist's album.
pub struct Album {
    /// The album title.
    pub title: String,
    /// The artist.
    pub artist: String,
    /// The embedded cover's encoded image bytes, if any track had one.
    pub art: Option<Vec<u8>>,
    /// The tracks, in play order.
    pub tracks: Vec<Track>,
}

/// The fields a file's tag offers, each only when the tag has it.
pub struct TagFields {
    pub title: Option<String>,
    pub artist: Option<String>,
    pub album: Option<String>,
    pub track: Option<u32>,
}

/// A track's settled identity.
pub struct TrackInfo {
    pub artist: String,
    pub album: String,
    pub title: String,
    pub number: u32,
}

/// `c` in lower case if it is an ASCII capital.
pub open spec fn lower_char(c: char) -> char {
    if 'A' <= c && c <= 'Z' {
        ((c as u8) + 32) as u8 as char
    } else {
        c
    }
}

/// `s` with ASCII capitals turned to lower case.
pub open spec fn ascii_lower(s: Seq<char>) -> Seq<char> {
    Seq::new(s.len(), |i: int| lower_char(s[i]))
}

/// The extensions of the files a scan picks up, in lower case.
pub open spec fn audio_extensions() -> Seq<Seq<char>> {
    seq!["mp3"@, "flac"@, "ogg"@, "oga"@, "m4a"@, "wav"@]
}

/// Whether a file extension names an audio format the player reads
/// (compared without regard to ASCII case).
pub open spec fn is_audio_extension(ext: Seq<char>) -> bool {
    audio_extensions().contains(ascii_lower(ext))
}

fn lower(c: char) -> (out: char)
    ensures
        out == lower_char(c),
{
    if 'A' <= c && c <= 'Z' {
        ((c as u8) + 32) as char
    } else {
        c
    }
}

fn eq_ignore_ascii_case(a: &Vec<char>, lit: &str) -> (b: bool)
    ensures
        b == (ascii_lower(a@) == lit@),
{
    let l = chars_of(lit);
    if a.len() != l.len() {
        assert(ascii_lower(a@).len() != lit@.len());
        return false;
    }
    let mut i: usize = 0;
    while i < a.len()
        invariant
            i <= a@.len() == l@.len(),
            l@ == lit@,
            forall|k: int| 0 <= k < i ==> ascii_lower(a@)[k] == l@[k],
        decreases a@.len() - i,
    {
        if lower(a[i]) != l[i] {
            assert(ascii_lower(a@)[i as int] != lit@[i as int]);
            return false;
        }
        i = i + 1;
    }
    assert(ascii_lower(a@) =~= lit@);
    true
}

/// Whether a file with this extension is audio the scan picks up.
pub fn is_audio_ext(ext: &str) -> (b: bool)
    ensures
        b == is_audio_extension(ext@),
{
    proof {
        reveal_strlit("mp3");
        reveal_strlit("flac");
        reveal_strlit("ogg");
        reveal_strlit("oga");
        reveal_strlit("m4a");
        reveal_strlit("wav");
    }
    let cs = chars_of(ext);
    let r = eq_ignore_ascii_case(&cs, "mp3") || eq_ignore_ascii_case(&cs, "flac")
        || eq_ignore_ascii_case(&cs, "ogg") || eq_ignore_ascii_case(&cs, "oga")
        || eq_ignore_ascii_case(&cs, "m4a") || eq_ignore_ascii_case(&cs, "wav");
    proof {
        let x = ascii_lower(ext@);
        let exts = audio_extensions();
        if r {
            assert(exts.contains(x)) by {
                if x == "mp3"@ { assert(exts[0] == x); }
                else if x == "flac"@ { assert(exts[1] == x); }
                else if x == "ogg"@ { assert(exts[2] == x); }
                else if x == "oga"@ { assert(exts[3] == x); }
                else if x == "m4a"@ { assert(exts[4] == x); }
                else { assert(exts[5] == x); }
            }
        } else {
            assert(!exts.contains(x)) by {
                if exts.contains(x) {
                    let k = choose|k: int| 0 <= k < exts.len() && exts[k] == x;
                    assert(k == 0 || k == 1 || k == 2 || k == 3 || k == 4 || k == 5);
                }
            }
        }
    }
    r
}

/// The number of ASCII digits `s` starts with.
pub open spec fn leading_digits(s: Seq<char>) -> nat
    decreases s.len(),
{
    if s.len() > 0 && '0' <= s[0] && s[0] <= '9' {
        1 + leading_digits(s.drop_first())
    } else {
        0
    }
}

/// Whether ` - ` starts at index `k` of `s`.
pub open spec fn dash_at(s: Seq<char>, k: int) -> bool {
    0 <= k && k + 3 <= s.len() && s[k] == ' ' && s[k + 1] == '-' && s[k + 2] == ' '
}

/// The index of the first ` - ` in `s`, if any.
pub open spec fn first_dash_sep(s: Seq<char>) -> Option<nat>
    decreases s.len(),
{
    if s.len() < 3 {
        None
    } else if dash_at(s, 0) {
        Some(0)
    } else {
        match first_dash_sep(s.drop_first()) {
            Some(i) => Some(i + 1),
            None => None,
        }
    }
}

/// The track number a leading run of digits gives: its value when it fits a
/// `u32`, else 0.
pub open spec fn number_of_digits(digits: Seq<char>) -> u32 {
    if digits_value(digits) <= u32::MAX {
        digits_value(digits) as u32
    } else {
        0
    }
}

/// A leading track number taken off a file name: `(number, rest)`. The
/// number is digits (after optional spaces) followed, after optional spaces,
/// by `-`, `.` or `)`; the rest starts after that mark and its spaces. With
/// no such number, the number is 0 and the rest is the whole name.
pub open spec fn strip_number(stem: Seq<char>) -> (u32, Seq<char>) {
    let trimmed = trim_start(stem);
    let k = leading_digits(trimmed);
    let after = trim_start(trimmed.skip(k as int));
    if k > 0 && after.len() > 0 && (after[0] == '-' || after[0] == '.' || after[0] == ')') {
        (number_of_digits(trimmed.take(k as int)), trim_start(after.drop_first()))
    } else {
        (0, stem)
    }
}

/// `(artist, title)` from a file name without its track number: split at
/// the first ` - `, both sides trimmed; an empty artist is unknown and an
/// empty title falls back to the whole trimmed name. With no ` - ` the
/// artist is unknown and the trimmed name is the title.
pub open spec fn split_artist_title(rest: Seq<char>) -> (Seq<char>, Seq<char>) {
    match first_dash_sep(rest) {
        Some(i) => {
            let artist = trim(rest.take(i as int));
            let title = trim(rest.skip(i as int + 3));
            (
                if artist.len() == 0 {
                    "Unknown Artist"@
                } else {
                    artist
                },
                if title.len() == 0 {
                    trim(rest)
                } else {
                    title
                },
            )
        },
        None => ("Unknown Artist"@, trim(rest)),
    }
}

/// What an untagged file's name gives: `(artist, title, number)`.
pub open spec fn filename_fields(stem: Seq<char>) -> (Seq<char>, Seq<char>, u32) {
    let (number, rest) = strip_number(stem);
    let (artist, title) = split_artist_title(rest);
    (artist, title, number)
}

proof fn lemma_leading_digits(s: Seq<char>, i: int)
    requires
        0 <= i <= s.len(),
        forall|k: int| 0 <= k < i ==> '0' <= #[trigger] s[k] <= '9',
        i == s.len() || !('0' <= s[i] <= '9'),
    ensures
        leading_digits(s) == i,
    decreases i,
{
    if i > 0 {
        assert forall|k: int| 0 <= k < i - 1 implies '0' <= #[trigger] s.drop_first()[k] <= '9' by {
            assert(s.drop_first()[k] == s[k + 1]);
        }
        lemma_leading_digits(s.drop_first(), i - 1);
    }
}

proof fn lemma_dash_sep_none(s: Seq<char>)
    requires
        forall|k: int| 0 <= k ==> !#[trigger] dash_at(s, k),
    ensures
        first_dash_sep(s) is None,
    decreases s.len(),
{
    if s.len() >= 3 {
        let t = s.drop_first();
        assert forall|k: int| 0 <= k implies !#[trigger] dash_at(t, k) by {
            if dash_at(t, k) {
                assert(t[k] == s[k + 1] && t[k + 1] == s[k + 2] && t[k + 2] == s[k + 3]);
                assert(dash_at(s, k + 1));
            }
        }
        assert(!dash_at(s, 0));
        lemma_dash_sep_none(t);
    }
}

proof fn lemma_dash_sep_at(s: Seq<char>, i: int)
    requires
        dash_at(s, i),
        forall|k: int| 0 <= k < i ==> !#[trigger] dash_at(s, k),
    ensures
        first_dash_sep(s) == Some(i as nat),
    decreases i,
{
    if i > 0 {
        let t = s.drop_first();
        assert forall|k: int| 0 <= k < i - 1 implies !#[trigger] dash_at(t, k) by {
            if dash_at(t, k) {
                assert(t[k] == s[k + 1] && t[k + 1] == s[k + 2] && t[k + 2] == s[k + 3]);
                assert(dash_at(s, k + 1));
            }
        }
        assert(t[i - 1] == s[i] && t[i] == s[i + 1] && t[i + 1] == s[i + 2]);
        assert(!dash_at(s, 0));
        lemma_dash_sep_at(t, i - 1);
    }
}

fn literal(s: &str) -> (out: String)
    ensures
        out@ == s@,
{
    s.to_owned()
}

/// Parses a run of ASCII digits as a `u32` track number; 0 when too large.
fn digits_number(cs: &Vec<char>, from: usize, to: usize) -> (n: u32)
    requires
        from <= to <= cs@.len(),
        all_digits(cs@.subrange(from as int, to as int)),
    ensures
        n == number_of_digits(cs@.subrange(from as int, to as int)),
{
    let mut value: u64 = 0;
    let mut j: usize = from;
    while j < to
        invariant
            from <= j <= to <= cs@.len(),
            all_digits(cs@.subrange(from as int, to as int)),
            value as nat == digits_value(cs@.subrange(from as int, j as int)),
            value <= u32::MAX,
            forall|m: int| from <= m < j ==> digits_value(cs@.subrange(from as int, m as int)) <= u32::MAX,
        decreases to - j,
    {
        let c = cs[j];
        let ghost pre = cs@.subrange(from as int, j as int);
        assert(cs@.subrange(from as int, j + 1) =~= pre.push(c));
        assert(cs@.subrange(from as int, j + 1).drop_last() =~= pre);
        assert(cs@.subrange(from as int, to as int)[j - from] == c);
        let d = (c as u32 - '0' as u32) as u64;
        let next = value * 10 + d;
        if next > 0xffff_ffff {
            proof {
                lemma_digits_prefix_mono(cs@.subrange(from as int, to as int), j + 1 - from);
                assert(cs@.subrange(from as int, to as int).take(j + 1 - from) =~= pre.push(c));
            }
            return 0;
        }
        value = next;
        j = j + 1;
    }
    value as u32
}

proof fn lemma_digits_prefix_mono(s: Seq<char>, n: int)
    requires
        0 <= n <= s.len(),
        all_digits(s),
    ensures
        digits_value(s.take(n)) <= digits_value(s),
    decreases s.len() - n,
{
    if n < s.len() {
        lemma_digits_prefix_mono(s, n + 1);
        let t = s.take(n + 1);
        assert(t.drop_last() =~= s.take(n));
        assert(t.last() == s[n]);
    } else {
        assert(s.take(n) =~= s);
    }
}

/// Takes a leading track number off `cs`: the number and where the rest
/// starts.
fn take_number(cs: &Vec<char>) -> (out: (u32, usize))
    ensures
        out.1 <= cs@.len(),
        out.0 == strip_number(cs@).0,
        cs@.subrange(out.1 as int, cs@.len() as int) == strip_number(cs@).1,
{
    let n = cs.len();
    assert(cs@.subrange(0, n as int) =~= cs@);
    let t0 = skip_ws(cs, 0, n);
    let ghost trimmed = cs@.subrange(t0 as int, n as int);
    let mut d = t0;
    while d < n && '0' <= cs[d] && cs[d] <= '9'
        invariant
            t0 <= d <= n == cs@.len(),
            trimmed == cs@.subrange(t0 as int, n as int),
            forall|k: int| t0 <= k < d ==> '0' <= #[trigger] cs@[k] <= '9',
        decreases n - d,
    {
        d = d + 1;
    }
    proof {
        assert forall|k: int| 0 <= k < d - t0 implies '0' <= #[trigger] trimmed[k] <= '9' by {
            assert(trimmed[k] == cs@[t0 + k]);
        }
        if d < n {
            assert(trimmed[d - t0] == cs@[d as int]);
        }
        lemma_leading_digits(trimmed, d - t0);
        assert(trimmed.skip(d - t0) =~= cs@.subrange(d as int, n as int));
        assert(trimmed.take(d - t0) =~= cs@.subrange(t0 as int, d as int));
    }
    let a = skip_ws(cs, d, n);
    proof {
        let after = cs@.subrange(a as int, n as int);
        if after.len() > 0 {
            assert(after[0] == cs@[a as int]);
        }
    }
    if d > t0 && a < n && (cs[a] == '-' || cs[a] == '.' || cs[a] == ')') {
        proof {
            assert forall|k: int| 0 <= k < d - t0 implies '0' <= #[trigger] cs@.subrange(t0 as int, d as int)[k] <= '9' by {
                assert(cs@.subrange(t0 as int, d as int)[k] == cs@[t0 + k]);
            }
            assert(cs@.subrange(a as int, n as int).drop_first() =~= cs@.subrange(a + 1, n as int));
        }
        (digits_number(cs, t0, d), skip_ws(cs, a + 1, n))
    } else {
        (0u32, 0usize)
    }
}

/// Splits `cs[r0..]` into artist and title at its first ` - `.
fn split_fields(cs: &Vec<char>, r0: usize) -> (out: (String, String))
    requires
        r0 <= cs@.len(),
    ensures
        out.0@ == split_artist_title(cs@.subrange(r0 as int, cs@.len() as int)).0,
        out.1@ == split_artist_title(cs@.subrange(r0 as int, cs@.len() as int)).1,
{
    let n = cs.len();
    let ghost rest = cs@.subrange(r0 as int, n as int);
    let mut i: usize = r0;
    let mut found = false;
    while i < n && n - i >= 3 && !found
        invariant
            r0 <= i <= n == cs@.len(),
            rest == cs@.subrange(r0 as int, n as int),
            found ==> dash_at(rest, i - r0),
            forall|k: int| 0 <= k < i - r0 ==> !#[trigger] dash_at(rest, k),
        decreases n - i + (if found { 0int } else { 1int }),
    {
        assert(rest[i - r0] == cs@[i as int] && rest[i - r0 + 1] == cs@[i + 1] && rest[i - r0 + 2] == cs@[i + 2]);
        if cs[i] == ' ' && cs[i + 1] == '-' && cs[i + 2] == ' ' {
            found = true;
        } else {
            i = i + 1;
        }
    }
    if found {
        proof {
            lemma_dash_sep_at(rest, i - r0);
            assert(rest.take(i - r0) =~= cs@.subrange(r0 as int, i as int));
            assert(rest.skip(i - r0 + 3) =~= cs@.subrange(i + 3, n as int));
        }
        let artist = trim_range(cs, r0, i);
        let title = trim_range(cs, i + 3, n);
        let artist = if artist.as_str().is_empty() {
            literal("Unknown Artist")
        } else {
            artist
        };
        let title = if title.as_str().is_empty() {
            trim_range(cs, r0, n)
        } else {
            title
        };
        (artist, title)
    } else {
        proof {
            assert forall|k: int| 0 <= k implies !#[trigger] dash_at(rest, k) by {
                if k >= i - r0 {
                    assert(k + 3 > rest.len());
                }
            }
            lemma_dash_sep_none(rest);
        }
        (literal("Unknown Artist"), trim_range(cs, r0, n))
    }
}

/// Splits an untagged file's name (without extension) into
/// `(artist, title, number)`.
pub fn parse_filename(stem: &str) -> (out: (String, String, u32))
    ensures
        out.0@ == filename_fields(stem@).0,
        out.1@ == filename_fields(stem@).1,
        out.2 == filename_fields(stem@).2,
{
    let cs = chars_of(stem);
    let (number, r0) = take_number(&cs);
    let (artist, title) = split_fields(&cs, r0);
    (artist, title, number)
}

} // verus!

verus! {

/// Whether a tag field is there and not blank.
pub open spec fn present(field: Option<String>) -> bool {
    field matches Some(v) && trim(v@).len() > 0
}

/// The view of a tag field that is there.
pub open spec fn field_chars(field: Option<String>) -> Seq<char> {
    match field {
        Some(v) => v@,
        None => Seq::empty(),
    }
}

/// A track's `(artist, album, title, number)`: each tag field that is there
/// and not blank wins; the file name fills in the rest. With no album tag the
/// track is a single, its album named after its title; a track number of 0
/// counts as missing. An untagged file is a single named from its file name.
pub open spec fn resolved_fields(tag: Option<TagFields>, stem: Seq<char>) -> (Seq<char>, Seq<char>, Seq<char>, u32) {
    let (fa, ft, fnum) = filename_fields(stem);
    match tag {
        Some(t) => {
            let title = if present(t.title) { field_chars(t.title) } else { ft };
            let artist = if present(t.artist) { field_chars(t.artist) } else { fa };
            let album = if present(t.album) { field_chars(t.album) } else { title };
            let number = match t.track {
                Some(n) => if n > 0 { n } else { fnum },
                None => fnum,
            };
            (artist, album, title, number)
        },
        None => (fa, ft, ft, fnum),
    }
}

/// A tag field that is there and not blank always wins over the file name;
/// a track without an album tag is a single, its album named after its
/// title; a positive track number from the tag is kept, and an untagged
/// file takes everything from its file name, as a single.
pub proof fn lemma_tags_win(tag: Option<TagFields>, stem: Seq<char>)
    ensures
        ({
            let (artist, album, title, number) = resolved_fields(tag, stem);
            let (fa, ft, fnum) = filename_fields(stem);
            &&& tag matches Some(t) ==> {
                &&& present(t.title) ==> title == field_chars(t.title)
                &&& !present(t.title) ==> title == ft
                &&& present(t.artist) ==> artist == field_chars(t.artist)
                &&& !present(t.artist) ==> artist == fa
                &&& present(t.album) ==> album == field_chars(t.album)
                &&& !present(t.album) ==> album == title
                &&& t.track matches Some(n) ==> (n > 0 ==> number == n) && (n == 0 ==> number == fnum)
                &&& t.track is None ==> number == fnum
            }
            &&& tag is None ==> artist == fa && title == ft && album == ft && number == fnum
        }),
{
}

fn present_field(field: &Option<String>) -> (b: bool)
    ensures
        b == present(*field),
{
    match field {
        Some(v) => {
            let t = crate::state::trimmed(v.as_str());
            !t.as_str().is_empty()
        },
        None => false,
    }
}

/// Settles a track's artist, album, title and number from its tag (if the
/// file has one) and its file name (without extension).
pub fn resolve_track(tag: Option<TagFields>, stem: &str) -> (out: TrackInfo)
    ensures
        out.artist@ == resolved_fields(tag, stem@).0,
        out.album@ == resolved_fields(tag, stem@).1,
        out.title@ == resolved_fields(tag, stem@).2,
        out.number == resolved_fields(tag, stem@).3,
{
    let (fa, ft, fnum) = parse_filename(stem);
    match tag {
        Some(t) => {
            let has_title = present_field(&t.title);
            let has_artist = present_field(&t.artist);
            let has_album = present_field(&t.album);
            let title = if has_title {
                match t.title {
                    Some(v) => v,
                    None => ft,
                }
            } else {
                ft
            };
            let artist = if has_artist {
                match t.artist {
                    Some(v) => v,
                    None => fa,
                }
            } else {
                fa
            };
            let album = if has_album {
                match t.album {
                    Some(v) => v,
                    None => title.clone(),
                }
            } else {
                title.clone()
            };
            let number = match t.track {
                Some(n) => if n > 0 { n } else { fnum },
                None => fnum,
            };
            TrackInfo { artist, album, title, number }
        },
        None => {
            let album = ft.clone();
            TrackInfo { artist: fa, album, title: ft, number: fnum }
        },
    }
}

/// Picks the cover among a file's pictures, given which are marked as the
/// front cover.
pub fn cover_picture_index(front: &Vec<bool>) -> (out: Option<usize>)
    ensures
        match out {
            Some(i) => i < front@.len() && (front@[i as int] || (i == 0 && forall|j: int| 0 <= j < front@.len() ==> !front@[j]))
                && forall|j: int| 0 <= j < i ==> !front@[j],
            None => front@.len() == 0,
        },
{
    let mut i: usize = 0;
    while i < front.len()
        invariant
            i <= front@.len(),
            forall|j: int| 0 <= j < i ==> !front@[j],
        decreases front@.len() - i,
    {
        if front[i] {
            return Some(i);
        }
        i = i + 1;
    }
    if front.len() > 0 {
        Some(0)
    } else {
        None
    }
}

/// The key an album's cover is scraped and cached under: artist, a tab,
/// then title.
pub fn album_art_key(album: &Album) -> (out: String)
    ensures
        out@ == album.artist@ + seq!['\t'] + album.title@,
{
    let mut out = album.artist.clone();
    push_char(&mut out, '\t');
    out.append(album.title.as_str());
    out
}

/// The tracks of an album as a sequence of their paths.
pub open spec fn paths_of(album: Album) -> Seq<Seq<char>> {
    album.tracks@.map_values(|t: Track| t.path@)
}

/// Whether album `a` holds a track at `path` (the same path as `Path`
/// compares them, see `path_eq`).
pub open spec fn album_has_path(library: Seq<Album>, a: int, path: Seq<char>) -> bool {
    exists|k: int| 0 <= k < paths_of(library[a]).len() && path_eq(#[trigger] paths_of(library[a])[k], path)
}

/// Finds a track by path: the first album (in shelf order) holding it, and
/// the first such track in that album; paths are compared as `Path`s are
/// (see `path_eq`).
pub fn find_track(library: &Vec<Album>, path: &str) -> (out: Option<(usize, usize)>)
    ensures
        match out {
            Some((a, t)) => a < library@.len() && t < library@[a as int].tracks@.len()
                && path_eq(library@[a as int].tracks@[t as int].path@, path@)
                && (forall|j: int| 0 <= j < t ==> !path_eq(library@[a as int].tracks@[j].path@, path@))
                && (forall|b: int| 0 <= b < a ==> !album_has_path(library@, b, path@)),
            None => forall|b: int| 0 <= b < library@.len() ==> !album_has_path(library@, b, path@),
        },
{
    let mut a: usize = 0;
    while a < library.len()
        invariant
            a <= library@.len(),
            forall|b: int| 0 <= b < a ==> !album_has_path(library@, b, path@),
        decreases library@.len() - a,
    {
        let tracks = &library[a].tracks;
        let mut t: usize = 0;
        while t < tracks.len()
            invariant
                t <= tracks@.len(),
                a < library@.len(),
                tracks == &library@[a as int].tracks,
                forall|b: int| 0 <= b < a ==> !album_has_path(library@, b, path@),
                forall|j: int| 0 <= j < t ==> !path_eq(tracks@[j].path@, path@),
            decreases tracks@.len() - t,
        {
            if same_path(tracks[t].path.as_str(), path) {
                return Some((a, t));
            }
            t = t + 1;
        }
        proof {
            let ps = paths_of(library@[a as int]);
            assert(!album_has_path(library@, a as int, path@)) by {
                if album_has_path(library@, a as int, path@) {
                    let k = choose|k: int| 0 <= k < ps.len() && path_eq(#[trigger] ps[k], path@);
                    assert(ps[k] == tracks@[k].path@);
                }
            }
        }
        a = a + 1;
    }
    None
}

} // verus!
