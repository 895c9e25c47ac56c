use cosmic_cassette_deck::deck::Message;
use cosmic_cassette_deck::controls::deck_event_message;
use cosmic_cassette_deck::controls::{depressed_keys, DeckButton, DeckEvent, DeckReply, DeckState, Pointer};

fn roles() -> Vec<DeckButton> {
    vec![DeckButton::Play, DeckButton::Ff, DeckButton::Rew, DeckButton::Stop, DeckButton::Funct]
}

fn at(key: Option<usize>, on_label: bool) -> Option<Pointer> {
    Some(Pointer { key, on_label })
}

#[test]
fn wind_keys_wind_while_held() {
    let mut st = DeckState::default();
    assert_eq!(st.press(&roles(), false, at(Some(1), false)), Some(DeckReply::Publish(DeckEvent::WindForward)));
    assert_eq!(st.pressed, Some(1));
    assert_eq!(st.release(&roles(), false, None), Some(DeckReply::Publish(DeckEvent::WindStop)));
    assert_eq!(st.pressed, None);
    assert_eq!(st.press(&roles(), false, at(Some(2), false)), Some(DeckReply::Publish(DeckEvent::WindBack)));
}

#[test]
fn skip_mode_turns_wind_keys_into_skips() {
    let mut st = DeckState::default();
    assert_eq!(st.press(&roles(), true, at(Some(1), false)), Some(DeckReply::Redraw { captured: true }));
    assert_eq!(st.release(&roles(), true, at(Some(1), false)), Some(DeckReply::Publish(DeckEvent::Next)));
    st.press(&roles(), true, at(Some(2), false));
    assert_eq!(st.release(&roles(), true, at(Some(0), false)), Some(DeckReply::Redraw { captured: false }));
}

#[test]
fn keys_act_on_release_over_themselves() {
    let mut st = DeckState::default();
    st.press(&roles(), false, at(Some(0), false));
    assert_eq!(st.release(&roles(), false, at(Some(0), false)), Some(DeckReply::Publish(DeckEvent::TogglePlay)));
    st.press(&roles(), false, at(Some(3), false));
    assert_eq!(st.release(&roles(), false, at(None, false)), Some(DeckReply::Redraw { captured: false }));
    st.press(&roles(), false, at(Some(4), false));
    assert_eq!(st.release(&roles(), false, at(Some(4), false)), Some(DeckReply::Publish(DeckEvent::ToggleMode)));
    assert_eq!(st.release(&roles(), false, at(Some(4), false)), None);
}

#[test]
fn label_click_needs_press_and_release_on_it() {
    let mut st = DeckState::default();
    assert_eq!(st.press(&roles(), false, at(None, true)), Some(DeckReply::Redraw { captured: true }));
    assert!(st.label_armed);
    assert_eq!(st.release(&roles(), false, at(None, true)), Some(DeckReply::Publish(DeckEvent::LabelClick)));
    assert!(!st.label_armed);
    st.press(&roles(), false, at(None, true));
    assert_eq!(st.release(&roles(), false, at(None, false)), Some(DeckReply::Redraw { captured: false }));
    assert_eq!(st.press(&roles(), false, at(None, false)), None);
    assert_eq!(st.press(&roles(), false, None), None);
}

#[test]
fn pushed_down_keys() {
    assert_eq!(depressed_keys(&roles(), None, false), Vec::<usize>::new());
    assert_eq!(depressed_keys(&roles(), None, true), vec![4]);
    assert_eq!(depressed_keys(&roles(), Some(0), true), vec![0, 4]);
    assert_eq!(depressed_keys(&roles(), Some(4), false), vec![4]);
    assert_eq!(depressed_keys(&roles(), Some(4), true), Vec::<usize>::new());
    assert_eq!(depressed_keys(&vec![DeckButton::Play], Some(0), true), vec![0]);
}

#[test]
fn deck_events_become_deck_messages() {
    assert!(matches!(deck_event_message(DeckEvent::TogglePlay), Message::TogglePlay));
    assert!(matches!(deck_event_message(DeckEvent::Stop), Message::Stop));
    assert!(matches!(deck_event_message(DeckEvent::WindForward), Message::WindStart(1)));
    assert!(matches!(deck_event_message(DeckEvent::WindBack), Message::WindStart(-1)));
    assert!(matches!(deck_event_message(DeckEvent::WindStop), Message::WindStop));
    assert!(matches!(deck_event_message(DeckEvent::Next), Message::Next));
    assert!(matches!(deck_event_message(DeckEvent::Prev), Message::Prev));
    assert!(matches!(deck_event_message(DeckEvent::ToggleMode), Message::ToggleSkipMode));
    assert!(matches!(deck_event_message(DeckEvent::Eject), Message::ShowRack));
    assert!(matches!(deck_event_message(DeckEvent::LabelClick), Message::LabelClicked));
}
