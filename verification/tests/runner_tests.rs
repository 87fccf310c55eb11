use rusty_input::runner::Runner;

#[test]
fn runner_keeps_its_parts() {
    let r = Runner::new("on".to_string(), "off".to_string(), "sleep".to_string(), vec!["5s".to_string()]);
    assert_eq!(r.active_tui(), "on");
    assert_eq!(r.inactive_tui(), "off");
    assert_eq!(r.command(), "sleep");
    assert_eq!(r.args(), &vec!["5s".to_string()]);
    let c = r.clone();
    assert_eq!(c.command(), "sleep");
}
