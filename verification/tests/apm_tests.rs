use rusty_input::apm::Apm;

#[test]
fn new_apm_has_no_actions() {
    let a = Apm::new(10, 6, 13);
    assert_eq!(a.overall(), 0);
    assert_eq!(a.average(), 0);
}

#[test]
fn first_tick_sets_the_gap_later_ones_average() {
    let mut a = Apm::new(10, 6, 13);
    let start = a.last_tick();
    a.record_tick(start + 400);
    assert_eq!(a.overall(), 1);
    assert_eq!(a.average(), 400);
    a.record_tick(start + 600);
    assert_eq!(a.overall(), 2);
    assert_eq!(a.average(), 300);
    a.record_tick(start + 1600);
    assert_eq!(a.average(), 650);
    assert_eq!(a.last_tick(), start + 1600);
}

#[test]
fn tick_counts_an_action() {
    let mut a = Apm::new(0, 0, 9);
    a.tick();
    assert_eq!(a.overall(), 1);
}

#[test]
fn tui_cuts_both_rates() {
    let a = Apm::new(10, 6, 13);
    assert_eq!(a.get_tui(80, "1234.5678", "42.123456"), "\u{1b}[6;10H1234.5|42.123");
}

#[test]
fn even_width_gives_the_average_one_more_digit() {
    let a = Apm::new(0, 1, 12);
    assert_eq!(a.get_tui(80, "1234.5678", "42.123456"), "\u{1b}[1;0H1234.5|42.12");
}

#[test]
fn narrow_terminal_limits_the_digits() {
    let a = Apm::new(10, 6, 13);
    assert_eq!(a.get_tui(15, "1234.5678", "42.123456"), "\u{1b}[6;10H12|42");
}

#[test]
fn elapsed_time_is_read() {
    let a = Apm::new(0, 0, 5);
    assert!(a.elapsed_ms().is_some());
}

#[test]
fn unreadable_clock_changes_nothing() {
    let mut a = Apm::new(0, 0, 9);
    let start = a.last_tick();
    a.tick_with(None);
    assert_eq!(a.overall(), 0);
    assert_eq!(a.last_tick(), start);
}

#[test]
fn reading_before_the_last_action_changes_nothing() {
    let mut a = Apm::new(0, 0, 9);
    let start = a.last_tick();
    a.tick_with(Some(start + 500));
    a.tick_with(Some(start + 100));
    assert_eq!(a.overall(), 1);
    assert_eq!(a.average(), 500);
    assert_eq!(a.last_tick(), start + 500);
}

#[test]
fn reading_in_the_same_millisecond_counts() {
    let mut a = Apm::new(0, 0, 9);
    let start = a.last_tick();
    a.tick_with(Some(start));
    assert_eq!(a.overall(), 1);
    assert_eq!(a.average(), 0);
}

#[test]
fn each_reading_counts_one_action() {
    let mut a = Apm::new(0, 0, 9);
    let start = a.last_tick();
    for k in 1..=5u128 {
        a.tick_with(Some(start + 100 * k));
    }
    assert_eq!(a.overall(), 5);
    assert_eq!(a.average(), 100);
}

#[test]
fn n_ticks_count_n_actions() {
    let mut a = Apm::new(0, 0, 9);
    for _ in 0..7 {
        a.tick();
    }
    assert_eq!(a.overall(), 7);
}
