use rusty_input::tui::{key_id, parse_line, parse_static, LoadError, ScriptedTui, TuiLayout, TuiLine};

#[test]
fn static_line_is_unescaped_and_trimmed() {
    let line = r"\x1b[2J\x1b[38;2;128;128;128m\x1b[1;3H╔═══╗\x1b[2;3H║ A ║\x1b[3;3H╚═══╝\x1b[0m".to_string()
        + "\n";
    assert_eq!(
        parse_static(&line),
        "\u{1b}[2J\u{1b}[38;2;128;128;128m\u{1b}[1;3H╔═══╗\u{1b}[2;3H║ A ║\u{1b}[3;3H╚═══╝\u{1b}[0m"
    );
}

#[test]
fn reactive_press_and_release() {
    let press = r"[13, 38]\x1b[2;4H\x1b[48;2;128;128;128m A \x1b[0m".to_string() + "\n";
    match parse_line(&press) {
        Ok(TuiLine::Reactive { key, action }) => {
            assert_eq!(key, [13, 38]);
            assert_eq!(action, "\u{1b}[2;4H\u{1b}[48;2;128;128;128m A \u{1b}[0m\n");
        },
        _ => panic!("not a reactive element"),
    }
    let release = r"[14, 38]\x1b[2;4H A \x1b[0m".to_string() + "\n";
    match parse_line(&release) {
        Ok(TuiLine::Reactive { key, action }) => {
            assert_eq!(key, [14, 38]);
            assert_eq!(action, "\u{1b}[2;4H A \u{1b}[0m\n");
        },
        _ => panic!("not a reactive element"),
    }
}

#[test]
fn scripted_elements() {
    match parse_line("history 24 0 10 16\n") {
        Ok(TuiLine::History { x, y, length, width }) => assert_eq!((x, y, length, width), (24, 0, 10, 16)),
        _ => panic!("not a history"),
    }
    match parse_line("apm 10 6 13\n") {
        Ok(TuiLine::Apm { x, y, width }) => assert_eq!((x, y, width), (10, 6, 13)),
        _ => panic!("not an apm"),
    }
    assert!(matches!(parse_line("history 1 2 3\n"), Ok(TuiLine::Other)));
    assert!(matches!(parse_line("apm 1 2 3 4\n"), Ok(TuiLine::Other)));
    assert!(matches!(parse_line("historyx 1 2 3 4\n"), Ok(TuiLine::History { x: 1, y: 2, length: 3, width: 4 })));
}

#[test]
fn runner_element() {
    let line = r"runner [13, 24] ACTIVE:\x1b[0;7H\x1b[48;2;255;0;0m Q \x1b[0m INACTIVE:\x1b[0;7H   \x1b[0m COMMAND:sleep 5s"
        .to_string()
        + "\n";
    match parse_line(&line) {
        Ok(TuiLine::Runner { key, runner }) => {
            assert_eq!(key, [13, 24]);
            assert_eq!(runner.active_tui(), "\u{1b}[0;7H\u{1b}[48;2;255;0;0m Q \u{1b}[0m");
            assert_eq!(runner.inactive_tui(), "\u{1b}[0;7H   \u{1b}[0m");
            assert_eq!(runner.command(), "sleep");
            assert_eq!(runner.args(), &vec!["5s".to_string()]);
        },
        _ => panic!("not a runner"),
    }
}

#[test]
fn blank_line_ends_the_elements() {
    assert!(matches!(parse_line("\n"), Ok(TuiLine::End)));
    assert!(matches!(parse_line("  \t\n"), Ok(TuiLine::End)));
    assert!(matches!(parse_line(""), Ok(TuiLine::End)));
}

#[test]
fn other_lines_are_ignored() {
    assert!(matches!(parse_line("# a comment\n"), Ok(TuiLine::Other)));
}

#[test]
fn each_error_has_its_line() {
    assert!(matches!(parse_line("[13, 38 no bracket\n"), Err(LoadError::MissingBracket)));
    assert!(matches!(parse_line("[13 38]x\n"), Err(LoadError::BadKey)));
    assert!(matches!(parse_line("[13, 300]x\n"), Err(LoadError::BadKey)));
    assert!(matches!(parse_line("[1, 2, 3]x\n"), Err(LoadError::BadKey)));
    assert!(matches!(parse_line("history 1 2 x 4\n"), Err(LoadError::BadNumber)));
    assert!(matches!(parse_line("apm 1 -2 3\n"), Err(LoadError::BadNumber)));
    assert!(matches!(parse_line("runner [1, 2] ACTIVE:a INACTIVE:b\n"), Err(LoadError::MissingField)));
    assert!(matches!(parse_line("runner [1, 2] ACTIVE:a INACTIVE:b COMMAND:\n"), Err(LoadError::MissingCommand)));
    assert!(matches!(parse_line("runner [1] ACTIVE:a INACTIVE:b COMMAND:x\n"), Err(LoadError::BadKey)));
}

#[test]
fn layout_collects_the_elements() {
    let mut t = TuiLayout::new("static\n");
    assert_eq!(t.static_tui, "static");
    for line in [
        r"[13, 38]\x1b[2;4H A".to_string() + "\n",
        "[13, 38]again\n".to_string(),
        "history 24 0 10 16\n".to_string(),
        "apm 10 6 13\n".to_string(),
        "runner [13, 24] ACTIVE:a INACTIVE:b COMMAND:sleep 5s\n".to_string(),
    ] {
        match parse_line(&line) {
            Ok(l) => t.apply(l),
            Err(_) => panic!("bad line"),
        }
    }
    assert_eq!(t.reactive_tui.get(&key_id([13, 38])).map(|s| s.as_str()), Some("again\n"));
    assert_eq!(t.scripted_tui.len(), 2);
    assert!(matches!(t.scripted_tui[0], ScriptedTui::History(_)));
    assert!(matches!(t.scripted_tui[1], ScriptedTui::Apm(_)));
    assert_eq!(t.runners.get(&key_id([13, 24])).map(|r| r.command().clone()), Some("sleep".to_string()));
}

#[test]
fn key_ids_are_distinct() {
    assert_eq!(key_id([13, 38]), 13 * 256 + 38);
    assert_ne!(key_id([1, 0]), key_id([0, 255]));
}

#[test]
fn feed_adds_until_a_blank_line() {
    let mut t = TuiLayout::new("static\n");
    assert!(matches!(t.feed("apm 10 6 13\n"), Ok(true)));
    assert!(matches!(t.feed("# note\n"), Ok(true)));
    assert_eq!(t.scripted_tui.len(), 1);
    assert!(matches!(t.feed("   \n"), Ok(false)));
    assert_eq!(t.scripted_tui.len(), 1);
}

#[test]
fn feed_leaves_the_layout_on_an_error() {
    let mut t = TuiLayout::new("static\n");
    assert!(matches!(t.feed("apm 1 -2 3\n"), Err(LoadError::BadNumber)));
    assert_eq!(t.scripted_tui.len(), 0);
    assert!(t.reactive_tui.is_empty());
    assert!(t.runners.is_empty());
}
