use windy::{run_source, ExitCode, RunOptions};

fn run(source: &str) -> (ExitCode, String, String) {
    run_with_stdin(source, b"")
}

fn run_with_stdin(source: &str, stdin_bytes: &[u8]) -> (ExitCode, String, String) {
    run_source(
        source,
        RunOptions { seed: Some(42), max_steps: Some(1_000_000), stdin: stdin_bytes.to_vec() },
    )
}

fn run_capped(source: &str, seed: u64, max_steps: u64) -> (ExitCode, String, String) {
    run_source(source, RunOptions { seed: Some(seed), max_steps: Some(max_steps), stdin: Vec::new() })
}

#[test]
fn halt_returns_ok() {
    let (code, out, _) = run("@");
    assert_eq!(code, ExitCode::Success);
    assert_eq!(out, "");
}

#[test]
fn hello_world() {
    let (code, out, _) = run("\"!dlroW ,olleH\",,,,,,,,,,,,,@");
    assert_eq!(code, ExitCode::Success);
    assert_eq!(out, "Hello, World!");
}

#[test]
fn put_num_trailing_space() {
    assert_eq!(run("34+.@").1, "7 ");
}

#[test]
fn sub_argument_order() {
    assert_eq!(run("34-.@").1, "-1 ");
}

#[test]
fn div_mod_by_zero_push_zero() {
    assert_eq!(run("50/.@").1, "0 ");
    assert_eq!(run("50%.@").1, "0 ");
}

#[test]
fn stack_underflow_yields_zero() {
    assert_eq!(run(".@").1, "0 ");
}

#[test]
fn gt_comparison() {
    assert_eq!(run("53`.@").1, "1 ");
    assert_eq!(run("35`.@").1, "0 ");
}

#[test]
fn dup_and_swap() {
    assert_eq!(run("7:..@").1, "7 7 ");
    assert_eq!(run("12\\..@").1, "1 2 ");
}

#[test]
fn trampoline_skips_next_cell() {
    assert_eq!(run("#@5.@").1, "5 ");
}

#[test]
fn string_mode_pushes_codepoints() {
    assert_eq!(run("\"A\",@").1, "A");
    assert_eq!(run("\"+\".@").1, "43 ");
}

#[test]
fn if_v_routes_vertically() {
    let src = "0v\n |\n @";
    let (code, out, _) = run(src);
    assert_eq!(code, ExitCode::Success);
    assert_eq!(out, "");
}

#[test]
fn grid_put_then_get_roundtrip() {
    assert_eq!(run("\"!\"55p55g,@").1, "!");
}

#[test]
fn grid_put_self_modifies_for_halt() {
    let (code, out, err) = run("88*70p X");
    assert_eq!(code, ExitCode::Success);
    assert_eq!(out, "");
    assert!(!err.contains("unknown glyph"));
}

#[test]
fn max_steps_returns_124() {
    let (code, _, _) = run_capped("    ", 0, 3);
    assert_eq!(code, ExitCode::MaxSteps);
    assert_eq!(code.code(), 124);
}

#[test]
fn unknown_glyph_warned_once() {
    let (_, _, err) = run("ZZ@");
    assert_eq!(err.matches("unknown glyph").count(), 1);
}

#[test]
fn unknown_glyph_per_codepoint() {
    let (_, _, err) = run("ZY@");
    assert_eq!(err.matches("unknown glyph").count(), 2);
}

#[test]
fn unknown_glyph_warning_text() {
    let (_, out, err) = run("Z≫@");
    assert_eq!(out, "");
    assert_eq!(
        err,
        "windy: warning: unknown glyph 'Z' (U+005A) treated as NOP\n\
         windy: warning: unknown glyph '≫' (U+226B) treated as NOP\n"
    );
}

#[test]
fn sisobus_banner_on_stderr() {
    let (_, out, err) = run("\"sisobus\"@");
    assert!(err.contains("Kim Sangkeun"));
    assert!(!out.contains("Kim Sangkeun"));
}

#[test]
fn no_banner_without_watermark() {
    let (_, _, err) = run("@");
    assert!(!err.contains("Kim Sangkeun"));
}

#[test]
fn banner_precedes_warnings() {
    let (_, _, err) = run("Z@ sisobus");
    assert!(err.starts_with(&windy::banner()));
    assert!(err.ends_with("treated as NOP\n"));
}

#[test]
fn put_chr_emits_unicode() {
    assert_eq!(run("\"가\",@").1, "가");
}

#[test]
fn put_chr_skips_non_characters() {
    assert_eq!(run("01-,@").1, "");
}

#[test]
fn get_chr_on_empty_stdin_pushes_minus_one() {
    assert_eq!(run_with_stdin("?.@", b"").1, "-1 ");
}

#[test]
fn get_chr_reads_one_char() {
    assert_eq!(run_with_stdin("?.@", b"A").1, "65 ");
}

#[test]
fn get_chr_reads_multibyte_and_replaces_bad_bytes() {
    assert_eq!(run_with_stdin("???...@", "가".as_bytes()).1, "-1 -1 44032 ");
    assert_eq!(run_with_stdin("?.@", &[0x80]).1, "65533 ");
    assert_eq!(run_with_stdin("?.@", &[0xE0, 0x80]).1, "65533 ");
    assert_eq!(run_with_stdin("?.@", &[0xC0, 0x80]).1, "-1 ");
}

#[test]
fn get_num_reads_integer() {
    assert_eq!(run_with_stdin("&.@", b"42 ").1, "42 ");
}

#[test]
fn get_num_on_empty_stdin_pushes_minus_one() {
    assert_eq!(run_with_stdin("&.@", b"").1, "-1 ");
}

#[test]
fn get_num_skips_white_space_and_rejects_junk() {
    assert_eq!(run_with_stdin("&&+.@", b"  12\n30").1, "42 ");
    assert_eq!(run_with_stdin("&&..@", b"x1 7").1, "7 -1 ");
    assert_eq!(run_with_stdin("&.@", b"-123456789012345678901234567890").1, "-123456789012345678901234567890 ");
}

#[test]
fn turbulence_deterministic_with_seed() {
    let a = run_capped("~.@\n.@\n.@", 42, 50);
    let b = run_capped("~.@\n.@\n.@", 42, 50);
    assert_eq!(a.1, b.1);
}

#[test]
fn split_spawns_opposite_direction_ip() {
    let (code, out, _) = run_capped("t.@", 0, 50);
    assert_eq!(code, ExitCode::MaxSteps);
    assert_eq!(out, "0 ");
}

#[test]
fn split_in_strmode_pushes_codepoint() {
    assert_eq!(run("\"t\".@").1, "116 ");
}

#[test]
fn split_twice_halts_cleanly_when_both_ips_reach_halt() {
    assert_eq!(run("@.t").1, "");
}

#[test]
fn split_both_ips_write_stdout_in_birth_order() {
    let (code, out, _) = run_capped("1t2.@", 0, 40);
    assert_eq!(code, ExitCode::MaxSteps);
    assert_eq!(out, "2 ");
}

#[test]
fn split_per_ip_stack_independence() {
    let (code, out, _) = run_capped("t5.@@", 0, 40);
    assert_eq!(code, ExitCode::MaxSteps);
    assert_eq!(out, "5 ");
}

#[test]
fn big_integers_grow_past_i64() {
    // 9^20 computed by repeated multiplication.
    let src = "99*:*:*:*9*9*9*9*.@";
    let (_, out, _) = run(src);
    assert_eq!(out, "12157665459056928801 ");
}
