use cosmic_cassette_deck::rack::rack_message;
use cosmic_cassette_deck::deck::Message;
use cosmic_cassette_deck::deck::{fan_shows, wrap_index};
use cosmic_cassette_deck::rack::{fan_indices, fan_slot, rack_click, RackClick};
use cosmic_cassette_deck::label::{draw_rule, stand_up, strip_size};

#[test]
fn fan_lists_centre_then_neighbours() {
    assert_eq!(fan_indices(5, 10), vec![5, 6, 4, 7, 3, 8, 2]);
    assert_eq!(fan_indices(0, 10), vec![0, 1, 9, 2, 8, 3, 7]);
    assert_eq!(fan_indices(1, 2), vec![1, 0, 0, 1, 1, 0, 0]);
    assert_eq!(fan_indices(0, 0), Vec::<usize>::new());
}

#[test]
fn fan_slots_match_the_list() {
    let fan = fan_indices(5, 10);
    assert_eq!(fan[fan_slot(0, true)], 5);
    assert_eq!(fan[fan_slot(2, true)], 7);
    assert_eq!(fan[fan_slot(3, false)], 2);
    assert_eq!((fan_slot(1, true), fan_slot(1, false), fan_slot(3, true)), (1, 2, 5));
}

#[test]
fn fan_window_matches_the_fan() {
    for n in 1..9usize {
        for b in 0..n {
            let fan = fan_indices(b, n);
            for i in 0..n {
                assert_eq!(fan_shows(b, i, n), fan.contains(&i));
            }
        }
    }
    assert!(!fan_shows(0, 5, 10));
}

#[test]
fn wrapping_is_euclidean() {
    assert_eq!(wrap_index(0, -1, 4), 3);
    assert_eq!(wrap_index(2, -9, 4), 1);
    assert_eq!(wrap_index(3, 6, 4), 1);
    assert_eq!(wrap_index(0, i64::MIN, 3), 1);
}

#[test]
fn rack_clicks() {
    assert!(matches!(rack_click(true, false, true, 0, 3), Some(RackClick::Step(-1))));
    assert!(matches!(rack_click(false, true, false, 0, 3), Some(RackClick::Step(1))));
    assert!(matches!(rack_click(false, false, true, 2, 3), Some(RackClick::Select(2))));
    assert!(rack_click(false, false, true, 3, 3).is_none());
    assert!(rack_click(false, false, false, 0, 3).is_none());
}

#[test]
fn label_strip_rule_and_turn() {
    assert_eq!(strip_size(90, 532), (1064, 180));
    let (sw, sh) = (130u32, 160u32);
    let mut strip = vec![0u8; (sw * sh * 4) as usize];
    draw_rule(&mut strip, sw, sh);
    let at = |x: u32, y: u32| {
        let i = ((y * sw + x) * 4) as usize;
        [strip[i], strip[i + 1], strip[i + 2], strip[i + 3]]
    };
    assert_eq!(at(60, 148), [70, 68, 70, 255]);
    assert_eq!(at(69, 151), [70, 68, 70, 255]);
    assert_eq!(at(70, 148), [0, 0, 0, 0]);
    assert_eq!(at(59, 150), [0, 0, 0, 0]);
    assert_eq!(at(65, 152), [0, 0, 0, 0]);
    let label = stand_up(strip, sw, sh);
    assert_eq!((label.width, label.height), (160, 130));
    // Pixel (x, y) of the label is strip pixel (y, 159 - x).
    let i = ((60 * 160 + (159 - 148)) * 4) as usize;
    assert_eq!(&label.data[i..i + 4], &[70, 68, 70, 255]);
}

#[test]
fn rack_clicks_become_deck_messages() {
    assert!(matches!(rack_message(RackClick::Step(-1)), Message::BrowseStep(-1)));
    assert!(matches!(rack_message(RackClick::Step(1)), Message::BrowseStep(1)));
    assert!(matches!(rack_message(RackClick::Select(4)), Message::AlbumSelected(4)));
}
