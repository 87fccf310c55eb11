use rusty_input::keys::{debug_line, raw_action, PressedKeys, RawAction};

#[test]
fn presses_and_releases() {
    let mut k = PressedKeys::new();
    k.handle([13, 5]);
    k.handle([15, 6]);
    k.handle([13, 5]);
    assert_eq!(k.keys(), &vec![5, 6, 5]);
    k.handle([14, 5]);
    assert_eq!(k.keys(), &vec![6, 5]);
    k.handle([16, 7]);
    assert_eq!(k.keys(), &vec![6, 5]);
    k.handle([17, 6]);
    assert_eq!(k.keys(), &vec![6, 5]);
}

#[test]
fn press_then_release_restores() {
    let mut k = PressedKeys::new();
    k.handle([13, 1]);
    k.handle([13, 2]);
    k.handle([13, 9]);
    k.handle([14, 9]);
    assert_eq!(k.keys(), &vec![1, 2]);
    k.handle([13, 1]);
    k.handle([14, 1]);
    let mut held = k.keys().clone();
    held.sort();
    assert_eq!(held, vec![1, 2]);
}

#[test]
fn terminal_bytes() {
    assert_eq!(raw_action([3]), RawAction::Interrupt);
    assert_eq!(raw_action([12]), RawAction::Redraw);
    assert_eq!(raw_action([97]), RawAction::Nothing);
}

#[test]
fn debug_line_format() {
    let expected = format!(
        "\x1b[{}H\x1b[Kw:{} h:{} {:?} [g{:?} l{:?}]",
        24 - 1,
        80,
        24,
        vec![1u8, 2],
        [13u8, 38],
        [3u8]
    );
    assert_eq!(debug_line(80, 24, &vec![1, 2], [13, 38], [3]), expected);
    assert_eq!(debug_line(1, 1, &vec![], [0, 0], [0]), "\u{1b}[0H\u{1b}[Kw:1 h:1 [] [g[0, 0] l[0]]");
}
