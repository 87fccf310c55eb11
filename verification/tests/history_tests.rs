use rusty_input::history::{Event, History};

fn ev(key_code: u8, action_code: u8, event_time: u128) -> Event {
    Event { key_code, action_code, event_time }
}

fn filled(x: u8, y: u8, width: u8) -> History {
    let mut h = History::new(x, y, 3, width);
    h.record_event(ev(38, 13, 1234));
    h.record_event(ev(9, 14, 99999));
    h.record_event(ev(200, 7, 5));
    h
}

#[test]
fn rows_show_name_kind_and_time() {
    let mut h = filled(2, 1, 12);
    assert_eq!(h.dict_add(38, "a".to_string()), 0);
    assert_eq!(
        h.get_tui(80),
        "\u{1b}[1;2Ha   pus 1234\u{1b}[2;2H9   rel 9999\u{1b}[3;2H200 7   5"
    );
}

#[test]
fn rows_cut_to_the_room_left() {
    let h = filled(2, 1, 12);
    assert_eq!(h.get_tui(10), "\u{1b}[1;2H38  pus 1\u{1b}[2;2H9   rel 9\u{1b}[3;2H200 7   5");
}

#[test]
fn names_are_padded_by_bytes() {
    let mut h = filled(0, 0, 20);
    h.dict_add(9, "é".to_string());
    let out = h.get_tui(40);
    assert!(out.contains("\u{1b}[1;0Hé  rel 99999"));
}

#[test]
fn only_the_last_events_stay() {
    let mut h = History::new(0, 0, 2, 20);
    h.record_event(ev(1, 13, 10));
    h.record_event(ev(2, 13, 20));
    h.record_event(ev(3, 14, 30));
    assert_eq!(h.get_tui(80), "\u{1b}[0;0H2   pus 20\u{1b}[1;0H3   rel 30");
}

#[test]
fn empty_history_draws_nothing() {
    let mut h = History::new(5, 5, 0, 10);
    h.record_event(ev(1, 13, 10));
    assert_eq!(h.get_tui(0), "");
}

#[test]
fn first_name_is_kept() {
    let mut h = filled(0, 0, 20);
    assert_eq!(h.dict_add(38, "a".to_string()), 0);
    assert_eq!(h.dict_add(38, "b".to_string()), 38);
    assert!(h.get_tui(80).contains("a   pus 1234"));
}

#[test]
fn name_round_trip() {
    let mut h = filled(0, 0, 20);
    let before = h.get_tui(80);
    assert_eq!(h.dict_add(38, "a".to_string()), 0);
    assert_eq!(h.dict_remove(38), 0);
    assert_eq!(h.get_tui(80), before);
    assert_eq!(h.dict_remove(38), 38);
}

#[test]
fn add_event_uses_the_clock() {
    let mut h = History::new(0, 0, 1, 20);
    h.add_event(42, 15);
    assert!(h.get_tui(80).starts_with("\u{1b}[0;0H42  pus "));
}

#[test]
fn event_new_reads_the_clock() {
    let t = std::time::SystemTime::now();
    let e = Event::new(4, 16, &t).unwrap();
    assert_eq!(e.key_code, 4);
    assert_eq!(e.action_code, 16);
}
