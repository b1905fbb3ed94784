use windy::debugger::{parse_command, Command};
use windy::{parse, run_source, ExitCode, Op, RunOptions, Session};

fn seeded(source: &str, seed: u64, max_steps: u64, stdin: &[u8]) -> (ExitCode, String, String) {
    run_source(source, RunOptions { seed: Some(seed), max_steps: Some(max_steps), stdin: stdin.to_vec() })
}

#[test]
fn seeded_runs_repeat_exactly() {
    let src = "~1.@\n2.@\n3.@\n~4.@";
    for seed in 0..16u64 {
        assert_eq!(seeded(src, seed, 200, b"9"), seeded(src, seed, 200, b"9"));
    }
}

#[test]
fn turbulence_picks_a_wind() {
    for seed in 0..32u64 {
        let mut s = Session::new("~", "", Some(seed), Some(10));
        s.step();
        let (dx, dy) = (s.dx(), s.dy());
        assert!((-1..=1).contains(&dx) && (-1..=1).contains(&dy));
        assert!((dx, dy) != (0, 0));
    }
}

#[test]
fn spawned_ip_starts_behind_its_parent() {
    let mut s = Session::new("  t", "", Some(0), Some(10));
    s.step();
    s.step();
    s.step();
    // Parent executed `t` at (2, 0) heading east and moved on to (3, 0);
    // the child starts at (1, 0) heading west.
    assert_eq!(s.ip_positions(), vec![3, 0, 1, 0, 1, 0, -1, 0]);
}

#[test]
fn spawned_ip_runs_from_the_next_tick() {
    // The child is born at (0, 0) on tick 2 and first pushes 1 on tick 3.
    let mut s = Session::new("1t", "", Some(0), Some(10));
    s.step();
    s.step();
    assert_eq!(s.stack_len_for(1), 0);
    s.step();
    assert_eq!(s.stack_for(1), vec!["1".to_string()]);
}

#[test]
fn halted_ips_leave_at_the_end_of_the_tick() {
    let mut s = Session::new("t@", "", Some(0), Some(10));
    s.step();
    assert_eq!(s.ip_count(), 2);
    s.step();
    assert_eq!(s.ip_count(), 1);
}

#[test]
fn warned_once_per_glyph_across_ips() {
    let (_, _, err) = seeded("Zt Z@", 0, 20, b"");
    assert_eq!(err.matches("unknown glyph 'Z'").count(), 1);
}

#[test]
fn trailing_newlines_add_no_cells() {
    let (a, _) = parse("→@");
    let (b, _) = parse("→@\n\n\n");
    assert_eq!(a.len(), b.len());
}

#[test]
fn watermark_in_a_stripped_shebang_does_not_count() {
    let (_, _, err) = seeded("#!sisobus\n@", 0, 10, b"");
    assert!(!err.contains("Kim Sangkeun"));
    let (_, _, err) = seeded("@ sisobus", 0, 10, b"");
    assert!(err.contains("Kim Sangkeun"));
}

#[test]
fn budget_counts_ticks_not_turns() {
    // Two IPs wander forever; three ticks use up a budget of three.
    let mut s = Session::new("t ", "", Some(0), Some(3));
    assert_eq!(s.run_to_halt(), 124);
    assert_eq!(s.steps(), 3);
    assert_eq!(s.ip_count(), 2);
}

#[test]
fn stepping_to_the_end_matches_a_batch_run() {
    let src = "~1.@\n2.@\n3.@\n~4.@";
    for seed in 0..8u64 {
        let batch = windy::run(src, "", Some(seed), Some(100));
        let mut s = Session::new(src, "", Some(seed), Some(100));
        let code = s.run_to_halt();
        assert_eq!(code, batch.exit());
        assert_eq!(s.stdout(), batch.stdout());
        assert_eq!(s.stderr(), batch.stderr());
    }
}

#[test]
fn opcode_names_are_distinct() {
    let ops = [
        Op::Nop, Op::Halt, Op::Trampoline, Op::Split, Op::MoveE, Op::MoveNe, Op::MoveN,
        Op::MoveNw, Op::MoveW, Op::MoveSw, Op::MoveS, Op::MoveSe, Op::Turbulence,
        Op::PushDigit, Op::StrMode, Op::Add, Op::Sub, Op::Mul, Op::Div, Op::Mod, Op::Not,
        Op::Gt, Op::Dup, Op::Drop, Op::Swap, Op::IfH, Op::IfV, Op::PutNum, Op::PutChr,
        Op::GetNum, Op::GetChr, Op::GridGet, Op::GridPut, Op::Gust, Op::Calm, Op::Unknown,
    ];
    for (i, a) in ops.iter().enumerate() {
        for b in ops.iter().skip(i + 1) {
            assert_ne!(a.name(), b.name());
        }
    }
}

#[test]
fn int_debug_prints_the_number() {
    assert_eq!(format!("{:?}", windy::Int::from_i64(-42)), "-42");
    assert_eq!(format!("{:?}", windy::Int::from_u64(u64::MAX)), "18446744073709551615");
}

#[test]
fn grid_clone_and_default() {
    let (g, _) = parse("12@");
    let c = g.clone();
    assert_eq!(c.len(), 3);
    assert_eq!(c.get(1, 0).to_i64(), Some('2' as i64));
    let d = windy::Grid::default();
    assert_eq!(d.len(), 0);
    assert_eq!(d.get(5, 5).to_i64(), Some(32));
}

#[test]
fn white_space_includes_unicode_spaces() {
    assert!(matches!(parse_command("\u{3000} STEP \u{a0}"), Command::Step));
    assert!(matches!(parse_command("\u{85}q\u{2028}"), Command::Quit));
    assert!(matches!(parse_command("\u{200b}s"), Command::Unknown(_)));
}
