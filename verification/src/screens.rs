//! What the screens say and offer: the rack's caption and counter, the album
//! screen's play button and now-playing line, and which screens stand over
//! the room background.
use vstd::prelude::*;
use crate::deck::{Deck, Message, Screen, has_track};
use crate::library::Album;
use crate::text::{decimal, push_decimal};

verus! {

/// What the rack shows under its header.
#[derive(Clone, Copy, Debug, PartialEq, Eq, Structural)]
pub enum RackBody {
    /// A scan is running.
    Scanning,
    /// No albums: a prompt to open a folder.
    Empty,
    /// The fan of cases.
    Fan,
}

/// The rack's body: the scan first, then an empty shelf, else the fan.
pub fn rack_body(scanning: bool, albums: usize) -> (b: RackBody)
    ensures
        b == if scanning {
            RackBody::Scanning
        } else if albums == 0 {
            RackBody::Empty
        } else {
            RackBody::Fan
        },
{
    if scanning {
        RackBody::Scanning
    } else if albums == 0 {
        RackBody::Empty
    } else {
        RackBody::Fan
    }
}

/// An album's heading: artist, an en dash, title.
pub fn album_heading(album: &Album) -> (out: String)
    ensures
        out@ == album.artist@ + " – "@ + album.title@,
{
    let mut out = album.artist.clone();
    out.append(" – ");
    out.append(album.title.as_str());
    out
}

/// The rack's counter for album `browse` (from 0) of `total`, with how many
/// covers are in while some are still missing.
pub open spec fn rack_counter_text(browse: nat, total: nat, covered: nat) -> Seq<char> {
    let base = decimal(browse + 1) + " / "@ + decimal(total);
    if covered < total {
        base + "   ·   "@ + decimal(covered) + " covers loaded"@
    } else {
        base
    }
}

/// The rack's counter (see `rack_counter_text`).
pub fn rack_counter(browse: u64, total: u64, covered: u64) -> (out: String)
    requires
        browse < u64::MAX,
    ensures
        out@ == rack_counter_text(browse as nat, total as nat, covered as nat),
{
    let mut out = String::new();
    push_decimal(&mut out, browse + 1);
    out.append(" / ");
    push_decimal(&mut out, total);
    if covered < total {
        out.append("   ·   ");
        push_decimal(&mut out, covered);
        out.append(" covers loaded");
    }
    out
}

/// How many of the first `n` albums have a cover, embedded or scraped.
pub open spec fn covered_count(lib: Seq<Album>, scraped: Seq<bool>, n: int) -> nat
    decreases n,
{
    if n <= 0 {
        0
    } else {
        covered_count(lib, scraped, n - 1) + if lib[n - 1].art is Some || scraped[n - 1] {
            1nat
        } else {
            0nat
        }
    }
}

/// How many albums have a cover: embedded, or scraped (`scraped[i]` says
/// whether album `i` has a scraped one).
pub fn covers_loaded(lib: &Vec<Album>, scraped: &Vec<bool>) -> (n: usize)
    requires
        scraped@.len() == lib@.len(),
    ensures
        n == covered_count(lib@, scraped@, lib@.len() as int),
{
    let mut n: usize = 0;
    let mut i: usize = 0;
    while i < lib.len()
        invariant
            i <= lib@.len() == scraped@.len(),
            n == covered_count(lib@, scraped@, i as int),
            n <= i,
        decreases lib@.len() - i,
    {
        if lib[i].art.is_some() || scraped[i] {
            n = n + 1;
        }
        i = i + 1;
    }
    n
}

/// The album screen's play button.
#[derive(Clone, Copy, Debug, PartialEq, Eq, Structural)]
pub enum RevealButton {
    /// This album is loaded and playing: pause it.
    Pause,
    /// This album is loaded but paused: resume it.
    Resume,
    /// Another album, or none, is loaded: open this album's case and play it
    /// from its first track.
    Start,
}

/// The play button of album `idx`'s screen.
pub open spec fn reveal_button_of(current: Option<(usize, usize)>, playing: bool, idx: usize) -> RevealButton {
    if current matches Some((a, _)) && a == idx {
        if playing {
            RevealButton::Pause
        } else {
            RevealButton::Resume
        }
    } else {
        RevealButton::Start
    }
}

impl Deck {
    /// The play button of album `idx`'s screen (see `reveal_button_of`).
    pub fn reveal_button(&self, idx: usize) -> (b: RevealButton)
        ensures
            b == reveal_button_of(self.current, self.playing, idx),
    {
        match self.current {
            Some((a, _)) => if a == idx {
                if self.playing {
                    RevealButton::Pause
                } else {
                    RevealButton::Resume
                }
            } else {
                RevealButton::Start
            },
            None => RevealButton::Start,
        }
    }

    /// The line naming the playing song on album `idx`'s screen, when that
    /// album is the loaded one.
    pub fn now_playing(&self, idx: usize) -> (out: Option<String>)
        ensures
            match self.current {
                Some((a, t)) => if a == idx && has_track(self.library@, a as int, t as int) {
                    out matches Some(s) && s@ == "♪ Now playing: "@ + self.library@[a as int].tracks@[t as int].title@
                } else {
                    out is None
                },
                None => out is None,
            },
    {
        match self.current {
            Some((a, t)) => {
                if a == idx && a < self.library.len() && t < self.library[a].tracks.len() {
                    let mut s = "♪ Now playing: ".to_owned();
                    s.append(self.library[a].tracks[t].title.as_str());
                    Some(s)
                } else {
                    None
                }
            },
            None => None,
        }
    }
}

/// What the play button of a screen sends.
pub fn reveal_message(b: RevealButton, idx: usize) -> (m: Message)
    ensures
        match b {
            RevealButton::Start => m matches Message::OpenCase { album, track } && album == idx && track == 0,
            _ => m is TogglePlay,
        },
{
    match b {
        RevealButton::Start => Message::OpenCase { album: idx, track: 0 },
        _ => Message::TogglePlay,
    }
}

/// Whether the room background stands behind the screen: behind the album
/// screen and the case-open animation (the rack draws its own, the player is
/// a scene of its own).
pub fn shows_room(screen: Screen) -> (b: bool)
    ensures
        b == (screen is Reveal || screen is CaseOpen),
{
    match screen {
        Screen::Reveal(_) => true,
        Screen::CaseOpen { .. } => true,
        _ => false,
    }
}

/// The album screen's button: only the loaded album's own screen offers
/// Pause (while it plays) or Resume (while it is paused); every other album's
/// screen, whatever the deck is doing, offers Start, which opens that
/// album's case at its first track.
pub proof fn lemma_reveal_button_for_album(current: Option<(usize, usize)>, playing: bool, idx: usize)
    ensures
        !(current matches Some((a, _)) && a == idx) ==> reveal_button_of(current, playing, idx)
            == RevealButton::Start,
        current matches Some((a, _)) && a == idx && playing ==> reveal_button_of(current, playing, idx)
            == RevealButton::Pause,
        current matches Some((a, _)) && a == idx && !playing ==> reveal_button_of(current, playing, idx)
            == RevealButton::Resume,
        current is None ==> reveal_button_of(current, playing, idx) == RevealButton::Start,
{
}

} // verus!
