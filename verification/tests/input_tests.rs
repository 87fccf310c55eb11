use rusty_input::input::{InputError, InputState};

#[test]
fn a_key_press_is_handed_on() {
    let mut s = InputState::new(false);
    let st = s.step_at("EVENT type 13 (RawKeyPress)\n", 500).unwrap();
    assert_eq!(st.log_line.as_deref(), Some(""));
    assert_eq!(st.send, None);
    let st = s.step_at("    device: 3 (3)\n", 501).unwrap();
    assert_eq!(st.send, None);
    let st = s.step_at("    detail: 38\n", 502).unwrap();
    assert_eq!(st.send, Some([13, 38]));
    let st = s.step_at("    valuators:\n", 503).unwrap();
    assert_eq!(st.send, None);
    let st = s.step_at("EVENT type 14 (RawKeyRelease)\n", 700).unwrap();
    assert_eq!(st.log_line, None);
    s.step_at("    detail: 38\n", 701).unwrap();
}

#[test]
fn logging_hands_on_each_event_line() {
    let mut s = InputState::new(true);
    s.step_at("EVENT type 13 (RawKeyPress)\n", 500).unwrap();
    s.step_at("    device: 3 (3)\n", 501).unwrap();
    s.step_at("    detail: 38\n", 502).unwrap();
    let st = s.step_at("EVENT type 14 (RawKeyRelease)\n", 700).unwrap();
    assert_eq!(st.log_line.as_deref(), Some("500|13|3|detail: 38|"));
}

#[test]
fn device_lines_before_the_first_event_are_kept_whole() {
    let mut s = InputState::new(false);
    s.step_at("Device 'keyboard' id 3\n", 0).unwrap();
    let st = s.step_at("EVENT type 2 (KeyPress)\n", 10).unwrap();
    assert_eq!(st.log_line.as_deref(), Some("Device 'keyboard' id 3\n"));
}

#[test]
fn motion_events_are_not_handed_on() {
    let mut s = InputState::new(false);
    s.step_at("EVENT type 17 (RawMotion)\n", 5).unwrap();
    let st = s.step_at("    detail: 0\n", 6).unwrap();
    assert_eq!(st.send, None);
}

#[test]
fn missing_numbers_are_errors() {
    let mut s = InputState::new(false);
    assert!(matches!(s.step_at("EVENT nothing here\n", 1), Err(InputError::MissingNumber)));
    assert!(matches!(s.step_at("device: none\n", 1), Err(InputError::MissingNumber)));
    s.step_at("EVENT type 15 (RawButtonPress)\n", 2).unwrap();
    assert!(matches!(s.step_at("detail: x\n", 3), Err(InputError::MissingNumber)));
}

#[test]
fn step_reads_the_clock() {
    let mut s = InputState::new(false);
    let st = s.step("EVENT type 13 (RawKeyPress)\n").unwrap();
    assert_eq!(st.send, None);
    let st = s.step("    detail: 9\n").unwrap();
    assert_eq!(st.send, Some([13, 9]));
}
