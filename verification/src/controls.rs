//! The deck's transport keys: what a press and a release on them (or on the
//! label strip) mean, and which keys are drawn pushed down.
//!
//! Hit-testing a pointer against the skin's button rectangles is the
//! caller's; these functions take which button (the first one, in the skin's
//! order) and whether the label strip lies under the pointer.
use vstd::prelude::*;
use crate::deck::Message;

verus! {

/// The role of a transport key; roles are the same on every skin.
#[derive(Clone, Copy, Debug, PartialEq, Eq, Structural)]
pub enum DeckButton {
    Play,
    Stop,
    Ff,
    Rew,
    /// Mode toggle (latching): FF/REW switch between wind and track skip.
    Funct,
    /// Eject the tape: open the rack.
    Eject,
}

/// How a pressed key is drawn.
#[derive(Clone, Copy, Debug, PartialEq, Eq, Structural)]
pub enum PressStyle {
    /// A taller patch: the key slides down behind the deck edge.
    Travel,
    /// A darkened crop at the key's own rectangle.
    Darken,
}

/// The deck's pointer state.
#[derive(Debug)]
pub struct DeckState {
    /// The index (in the skin's key list) of the key being held.
    pub pressed: Option<usize>,
    /// A press landed on the label strip and awaits its release.
    pub label_armed: bool,
}

impl Default for DeckState {
    fn default() -> (s: DeckState)
        ensures
            s.pressed is None && !s.label_armed,
    {
        DeckState { pressed: None, label_armed: false }
    }
}

/// What a key press or release asks the player to do.
#[derive(Clone, Copy, Debug, PartialEq, Eq, Structural)]
pub enum DeckEvent {
    TogglePlay,
    Stop,
    WindForward,
    WindBack,
    WindStop,
    Next,
    Prev,
    ToggleMode,
    Eject,
    LabelClick,
}

/// How the deck answers a pointer event.
#[derive(Clone, Copy, Debug, PartialEq, Eq, Structural)]
pub enum DeckReply {
    /// Send this event to the player, taking the pointer event.
    Publish(DeckEvent),
    /// Redraw, taking the pointer event when `captured`.
    Redraw { captured: bool },
}

/// What is under the pointer: the first key hit, if any, and whether the
/// label strip is.
pub struct Pointer {
    pub key: Option<usize>,
    pub on_label: bool,
}

/// The answer to a left press with the pointer over `at` (none when the
/// pointer is outside the deck): a key is held (FF and REW start winding at
/// once, unless they skip tracks), else the label strip is armed.
pub open spec fn press_reply(roles: Seq<DeckButton>, skip_mode: bool, at: Option<Pointer>) -> (Option<usize>, bool, Option<DeckReply>) {
    match at {
        None => (None, false, None),
        Some(p) => match p.key {
            Some(i) => (
                Some(i),
                false,
                Some(
                    if roles[i as int] == DeckButton::Ff && !skip_mode {
                        DeckReply::Publish(DeckEvent::WindForward)
                    } else if roles[i as int] == DeckButton::Rew && !skip_mode {
                        DeckReply::Publish(DeckEvent::WindBack)
                    } else {
                        DeckReply::Redraw { captured: true }
                    },
                ),
            ),
            None => if p.on_label {
                (None, true, Some(DeckReply::Redraw { captured: true }))
            } else {
                (None, false, None)
            },
        },
    }
}

/// The event a release of held key `role` sends: a wind key always stops
/// its wind; otherwise a key acts only when released over itself.
pub open spec fn release_event(role: DeckButton, inside: bool, skip_mode: bool) -> Option<DeckEvent> {
    if (role == DeckButton::Ff || role == DeckButton::Rew) && !skip_mode {
        Some(DeckEvent::WindStop)
    } else if !inside {
        None
    } else {
        match role {
            DeckButton::Ff => Some(DeckEvent::Next),
            DeckButton::Rew => Some(DeckEvent::Prev),
            DeckButton::Play => Some(DeckEvent::TogglePlay),
            DeckButton::Stop => Some(DeckEvent::Stop),
            DeckButton::Funct => Some(DeckEvent::ToggleMode),
            DeckButton::Eject => Some(DeckEvent::Eject),
        }
    }
}

impl DeckState {
    /// A left press. `roles` lists the skin's keys in order.
    pub fn press(&mut self, roles: &Vec<DeckButton>, skip_mode: bool, at: Option<Pointer>) -> (r: Option<DeckReply>)
        requires
            at matches Some(p) && p.key matches Some(i) ==> i < roles@.len(),
        ensures
            ({
                let (held, armed, reply) = press_reply(roles@, skip_mode, at);
                &&& r == reply
                &&& final(self).pressed == if held is Some {
                    held
                } else {
                    old(self).pressed
                }
                &&& final(self).label_armed == (armed || old(self).label_armed)
            }),
    {
        match at {
            None => None,
            Some(p) => match p.key {
                Some(i) => {
                    self.pressed = Some(i);
                    let role = roles[i];
                    if role == DeckButton::Ff && !skip_mode {
                        Some(DeckReply::Publish(DeckEvent::WindForward))
                    } else if role == DeckButton::Rew && !skip_mode {
                        Some(DeckReply::Publish(DeckEvent::WindBack))
                    } else {
                        Some(DeckReply::Redraw { captured: true })
                    }
                },
                None => if p.on_label {
                    self.label_armed = true;
                    Some(DeckReply::Redraw { captured: true })
                } else {
                    None
                },
            },
        }
    }

    /// A left release with the pointer over `at` (none when outside the
    /// deck). An armed label click fires when released over the label; a
    /// held key is let go and sends its release event (see `release_event`).
    pub fn release(&mut self, roles: &Vec<DeckButton>, skip_mode: bool, at: Option<Pointer>) -> (r: Option<DeckReply>)
        requires
            old(self).pressed matches Some(i) ==> i < roles@.len(),
        ensures
            if old(self).label_armed {
                &&& !final(self).label_armed
                &&& final(self).pressed == old(self).pressed
                &&& r == Some(
                    if at matches Some(p) && p.on_label {
                        DeckReply::Publish(DeckEvent::LabelClick)
                    } else {
                        DeckReply::Redraw { captured: false }
                    },
                )
            } else {
                &&& !final(self).label_armed
                &&& final(self).pressed is None
                &&& r == match old(self).pressed {
                    Some(i) => Some(
                        match release_event(
                            roles@[i as int],
                            at matches Some(p) && p.key == Some(i),
                            skip_mode,
                        ) {
                            Some(e) => DeckReply::Publish(e),
                            None => DeckReply::Redraw { captured: false },
                        },
                    ),
                    None => None,
                }
            },
    {
        if self.label_armed {
            self.label_armed = false;
            let on_label = match &at {
                Some(p) => p.on_label,
                None => false,
            };
            if on_label {
                return Some(DeckReply::Publish(DeckEvent::LabelClick));
            }
            return Some(DeckReply::Redraw { captured: false });
        }
        match self.pressed.take() {
            Some(armed) => {
                let inside = match &at {
                    Some(p) => match p.key {
                        Some(k) => k == armed,
                        None => false,
                    },
                    None => false,
                };
                let role = roles[armed];
                let ev = if (role == DeckButton::Ff || role == DeckButton::Rew) && !skip_mode {
                    Some(DeckEvent::WindStop)
                } else if !inside {
                    None
                } else {
                    match role {
                        DeckButton::Ff => Some(DeckEvent::Next),
                        DeckButton::Rew => Some(DeckEvent::Prev),
                        DeckButton::Play => Some(DeckEvent::TogglePlay),
                        DeckButton::Stop => Some(DeckEvent::Stop),
                        DeckButton::Funct => Some(DeckEvent::ToggleMode),
                        DeckButton::Eject => Some(DeckEvent::Eject),
                    }
                };
                match ev {
                    Some(e) => Some(DeckReply::Publish(e)),
                    None => Some(DeckReply::Redraw { captured: false }),
                }
            },
            None => None,
        }
    }
}

/// The first key with the mode-toggle role.
pub open spec fn funct_key(roles: Seq<DeckButton>) -> Option<int> {
    if exists|i: int| 0 <= i < roles.len() && roles[i] == DeckButton::Funct {
        Some(choose|i: int| 0 <= i < roles.len() && roles[i] == DeckButton::Funct && forall|j: int|
            0 <= j < i ==> roles[j] != DeckButton::Funct)
    } else {
        None
    }
}

/// The keys drawn pushed down: the held key (unless it is the mode key), and
/// the mode key when it is latched, or, while held, when it is about to be
/// (the press previews the state it will toggle to).
pub fn depressed_keys(roles: &Vec<DeckButton>, pressed: Option<usize>, skip_mode: bool) -> (down: Vec<usize>)
    ensures
        ({
            let f = funct_key(roles@);
            let held = match pressed {
                Some(p) => if f != Some(p as int) {
                    seq![p]
                } else {
                    Seq::empty()
                },
                None => Seq::empty(),
            };
            let latched = match f {
                Some(k) => if skip_mode != (pressed matches Some(p) && p as int == k) {
                    seq![k as usize]
                } else {
                    Seq::empty()
                },
                None => Seq::empty(),
            };
            down@ == held + latched
        }),
{
    let mut f: Option<usize> = None;
    let mut i: usize = 0;
    while i < roles.len() && f.is_none()
        invariant
            i <= roles@.len(),
            f is None ==> forall|j: int| 0 <= j < i ==> roles@[j] != DeckButton::Funct,
            f matches Some(k) ==> k < roles@.len() && roles@[k as int] == DeckButton::Funct && forall|j: int|
                0 <= j < k ==> roles@[j] != DeckButton::Funct,
        decreases roles@.len() - i,
    {
        if roles[i] == DeckButton::Funct {
            f = Some(i);
        }
        i = i + 1;
    }
    proof {
        match f {
            Some(k) => {
                let c = choose|c: int| 0 <= c < roles@.len() && roles@[c] == DeckButton::Funct && forall|j: int|
                    0 <= j < c ==> roles@[j] != DeckButton::Funct;
                assert(c == k as int) by {
                    if c < k {
                        assert(roles@[c] != DeckButton::Funct);
                    } else if k < c {
                        assert(roles@[k as int] != DeckButton::Funct);
                    }
                }
            },
            None => {
                assert(i == roles@.len());
            },
        }
    }
    let mut down: Vec<usize> = Vec::new();
    match pressed {
        Some(p) => {
            let is_f = match f {
                Some(k) => k == p,
                None => false,
            };
            if !is_f {
                down.push(p);
            }
        },
        None => {},
    }
    match f {
        Some(k) => {
            let held_f = match pressed {
                Some(p) => p == k,
                None => false,
            };
            if skip_mode != held_f {
                down.push(k);
            }
        },
        None => {},
    }
    proof {
        let ff = funct_key(roles@);
        let held = match pressed {
            Some(p) => if ff != Some(p as int) {
                seq![p]
            } else {
                Seq::empty()
            },
            None => Seq::empty(),
        };
        let latched = match ff {
            Some(k) => if skip_mode != (pressed matches Some(p) && p as int == k) {
                seq![k as usize]
            } else {
                Seq::empty()
            },
            None => Seq::empty(),
        };
        assert(down@ =~= held + latched);
    }
    down
}

} // verus!

verus! {

/// Holding FF or REW in wind mode winds at once, and letting go stops the
/// wind wherever the pointer is released.
pub proof fn lemma_wind_key_roundtrip(roles: Seq<DeckButton>, i: usize, on_label: bool, inside: bool)
    requires
        i < roles.len(),
        roles[i as int] == DeckButton::Ff || roles[i as int] == DeckButton::Rew,
    ensures
        press_reply(roles, false, Some(Pointer { key: Some(i), on_label })).2 == Some(
            DeckReply::Publish(
                if roles[i as int] == DeckButton::Ff {
                    DeckEvent::WindForward
                } else {
                    DeckEvent::WindBack
                },
            ),
        ),
        release_event(roles[i as int], inside, false) == Some(DeckEvent::WindStop),
{
}

/// A key other than the wind keys in wind mode acts only when released over
/// itself: sliding off it cancels the press.
pub proof fn lemma_slide_off_cancels(role: DeckButton, skip_mode: bool)
    requires
        !((role == DeckButton::Ff || role == DeckButton::Rew) && !skip_mode),
    ensures
        release_event(role, false, skip_mode) is None,
        release_event(role, true, skip_mode) is Some,
{
}

/// What releasing each key sends. FF and REW wind while held unless FUNCT
/// is latched: then letting go always ends the wind, wherever the pointer
/// is. With FUNCT latched they skip tracks instead, FF to the next and REW
/// to the previous, so the two never send the same event. Every key acts
/// only when released over itself: PLAY toggles play, STOP stops, FUNCT
/// toggles skip mode, EJECT ejects.
pub proof fn lemma_release_keys(inside: bool, skip_mode: bool)
    ensures
        !skip_mode ==> release_event(DeckButton::Ff, inside, skip_mode) == Some(DeckEvent::WindStop),
        !skip_mode ==> release_event(DeckButton::Rew, inside, skip_mode) == Some(DeckEvent::WindStop),
        skip_mode && inside ==> release_event(DeckButton::Ff, inside, skip_mode) == Some(DeckEvent::Next),
        skip_mode && inside ==> release_event(DeckButton::Rew, inside, skip_mode) == Some(DeckEvent::Prev),
        skip_mode && inside ==> release_event(DeckButton::Ff, inside, skip_mode) != release_event(
            DeckButton::Rew,
            inside,
            skip_mode,
        ),
        inside ==> release_event(DeckButton::Play, inside, skip_mode) == Some(DeckEvent::TogglePlay),
        inside ==> release_event(DeckButton::Stop, inside, skip_mode) == Some(DeckEvent::Stop),
        inside ==> release_event(DeckButton::Funct, inside, skip_mode) == Some(DeckEvent::ToggleMode),
        inside ==> release_event(DeckButton::Eject, inside, skip_mode) == Some(DeckEvent::Eject),
        forall|role: DeckButton|
            !inside && !((role == DeckButton::Ff || role == DeckButton::Rew) && !skip_mode) ==> #[trigger] release_event(
                role,
                inside,
                skip_mode,
            ) is None,
{
}

/// What pressing each key answers: without FUNCT latched, FF starts winding
/// forward and REW winding back at once; any other key (and FF and REW in
/// skip mode) is only held, to act on release. A press on the label strip
/// arms it; a press on nothing does nothing.
pub proof fn lemma_press_keys(roles: Seq<DeckButton>, skip_mode: bool, p: Pointer)
    ensures
        p.key matches Some(i) && roles[i as int] == DeckButton::Ff && !skip_mode ==> press_reply(
            roles,
            skip_mode,
            Some(p),
        ).2 == Some(DeckReply::Publish(DeckEvent::WindForward)),
        p.key matches Some(i) && roles[i as int] == DeckButton::Rew && !skip_mode ==> press_reply(
            roles,
            skip_mode,
            Some(p),
        ).2 == Some(DeckReply::Publish(DeckEvent::WindBack)),
        p.key matches Some(i) && !((roles[i as int] == DeckButton::Ff || roles[i as int] == DeckButton::Rew)
            && !skip_mode) ==> press_reply(roles, skip_mode, Some(p)).2 == Some(
            DeckReply::Redraw { captured: true },
        ),
        p.key matches Some(i) ==> press_reply(roles, skip_mode, Some(p)).0 == Some(i),
        p.key is None && p.on_label ==> press_reply(roles, skip_mode, Some(p)) == (
            None::<usize>,
            true,
            Some(DeckReply::Redraw { captured: true }),
        ),
        press_reply(roles, skip_mode, None) == (None::<usize>, false, None::<DeckReply>),
{
}

/// The deck message a transport event stands for: the wind keys start a
/// wind forward or back, FUNCT toggles skipping, EJECT opens the rack, and a
/// click on the label opens the loaded album.
pub fn deck_event_message(e: DeckEvent) -> (m: Message)
    ensures
        m == match e {
            DeckEvent::TogglePlay => Message::TogglePlay,
            DeckEvent::Stop => Message::Stop,
            DeckEvent::WindForward => Message::WindStart(1i8),
            DeckEvent::WindBack => Message::WindStart(-1i8),
            DeckEvent::WindStop => Message::WindStop,
            DeckEvent::Next => Message::Next,
            DeckEvent::Prev => Message::Prev,
            DeckEvent::ToggleMode => Message::ToggleSkipMode,
            DeckEvent::Eject => Message::ShowRack,
            DeckEvent::LabelClick => Message::LabelClicked,
        },
{
    match e {
        DeckEvent::TogglePlay => Message::TogglePlay,
        DeckEvent::Stop => Message::Stop,
        DeckEvent::WindForward => Message::WindStart(1),
        DeckEvent::WindBack => Message::WindStart(-1),
        DeckEvent::WindStop => Message::WindStop,
        DeckEvent::Next => Message::Next,
        DeckEvent::Prev => Message::Prev,
        DeckEvent::ToggleMode => Message::ToggleSkipMode,
        DeckEvent::Eject => Message::ShowRack,
        DeckEvent::LabelClick => Message::LabelClicked,
    }
}

} // verus!
