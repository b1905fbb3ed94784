use windy::{run, version, Session, VERSION};

#[test]
fn batch_run_reports_output_and_status() {
    let r = run("34+.@", "", Some(1), Some(100));
    assert_eq!(r.stdout(), "7 ");
    assert_eq!(r.stderr(), "");
    assert_eq!(r.exit(), 0);
    let r = run("    ", "", Some(1), Some(3));
    assert_eq!(r.exit(), 124);
    let r = run("&.@", "15", Some(1), Some(100));
    assert_eq!(r.stdout(), "15 ");
}

#[test]
fn version_is_the_crate_version() {
    assert_eq!(version(), VERSION);
}

#[test]
fn session_steps_one_tick_at_a_time() {
    let mut s = Session::new("12+.@", "", Some(0), None);
    assert_eq!(s.ip_count(), 1);
    assert_eq!((s.ip_x(), s.ip_y(), s.dx(), s.dy()), (0, 0, 1, 0));
    assert_eq!(s.current_op(), "PUSH_DIGIT (1)");
    assert_eq!(s.current_cell(), '1' as u32);
    s.step();
    assert_eq!(s.steps(), 1);
    assert_eq!(s.stack(), vec!["1".to_string()]);
    s.step();
    assert_eq!(s.stack(), vec!["1".to_string(), "2".to_string()]);
    assert_eq!(s.stack_len(), 2);
    assert_eq!(s.current_op(), "ADD");
    s.step();
    s.step();
    assert_eq!(s.stdout(), "3 ");
    assert!(!s.halted());
    s.step();
    assert!(s.halted());
    assert_eq!(s.ip_count(), 0);
    assert_eq!(s.current_op(), "—");
    assert_eq!(s.current_cell(), 0);
    assert_eq!((s.ip_x(), s.ip_y(), s.dx(), s.dy()), (0, 0, 1, 0));
    let before = s.steps();
    s.step();
    assert_eq!(s.steps(), before);
    assert_eq!(s.run_to_halt(), 0);
}

#[test]
fn session_respects_the_budget() {
    let mut s = Session::new("    ", "", Some(0), Some(2));
    s.step();
    s.step();
    s.step();
    assert_eq!(s.steps(), 2);
    assert_eq!(s.run_to_halt(), 124);
}

#[test]
fn session_reports_every_ip() {
    let mut s = Session::new("t5.@@", "", Some(0), Some(40));
    s.step();
    assert_eq!(s.ip_count(), 2);
    assert_eq!(s.ip_positions(), vec![1, 0, 1, 0, -1, 0, -1, 0]);
    s.step();
    assert_eq!(s.stack_for(0), vec!["5".to_string()]);
    assert_eq!(s.stack_len_for(1), 0);
    assert!(s.stack_for(7).is_empty());
    assert_eq!(s.stack_len_for(7), 0);
    assert!(!s.strmode_for(7));
}

#[test]
fn session_banner_and_input() {
    let mut s = Session::new("?,@ sisobus", "Z", Some(0), None);
    assert!(s.stderr().contains("Kim Sangkeun"));
    assert_eq!(s.run_to_halt(), 0);
    assert_eq!(s.stdout(), "Z");
    assert_eq!(s.steps(), 3);
}

#[test]
fn session_grid_slice() {
    let s = Session::new("AB\nC", "", Some(0), None);
    assert_eq!(s.grid_slice(0, 0, 3, 2), vec![65, 66, 32, 67, 32, 32]);
    assert_eq!(s.grid_slice(-1, -1, 2, 1), vec![32, 32]);
    assert!(s.grid_slice(0, 0, 0, 5).is_empty());
    assert!(s.grid_slice(0, 0, u32::MAX, 1).is_empty());
}
