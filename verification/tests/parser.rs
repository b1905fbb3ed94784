use windy::{normalize, parse, Int, SPACE};

#[test]
fn normalize_strips_bom() {
    assert_eq!(normalize("\u{feff}→.@"), "→.@");
}

#[test]
fn normalize_crlf_to_lf() {
    assert_eq!(normalize("a\r\nb\rc"), "a\nb\nc");
}

#[test]
fn normalize_strips_shebang() {
    assert_eq!(normalize("#!/usr/bin/env windy\n→.@\n"), "→.@\n");
}

#[test]
fn normalize_shebang_without_newline_clears_all() {
    assert_eq!(normalize("#!/usr/bin/env windy"), "");
}

#[test]
fn normalize_preserves_non_shebang_hash() {
    assert_eq!(normalize("#→.@"), "#→.@");
}

#[test]
fn normalize_double_carriage_return() {
    assert_eq!(normalize("\r\r\n"), "\n\n");
    assert_eq!(normalize("\u{feff}#!x\r\ny"), "y");
}

#[test]
fn parse_basic_layout() {
    let (g, _) = parse("→@\nABC");
    assert_eq!(g.get(0, 0), Int::from_u32('→' as u32));
    assert_eq!(g.get(1, 0), Int::from_u32('@' as u32));
    assert_eq!(g.get(0, 1), Int::from_u32('A' as u32));
    assert_eq!(g.get(2, 1), Int::from_u32('C' as u32));
}

#[test]
fn parse_missing_cell_defaults_to_space() {
    let (g, _) = parse("→@");
    assert_eq!(g.get(50, 50), Int::from_u32(SPACE));
}

#[test]
fn parse_stores_nothing_for_space() {
    let (g, _) = parse("→ @");
    assert!(!g.contains(1, 0));
    assert_eq!(g.get(1, 0), Int::from_u32(SPACE));
}

#[test]
fn parse_codepoint_index_not_byte_offset() {
    // Multi-byte `→` must count as one column, not three.
    let (g, _) = parse("→@");
    assert_eq!(g.get(1, 0), Int::from_u32('@' as u32));
}

#[test]
fn parse_trailing_newline_no_empty_row() {
    let (g, _) = parse("→@\n");
    // Every stored cell is on row 0: the two cells of the only line.
    assert_eq!(g.len(), 2);
    assert!(g.contains(0, 0));
    assert!(g.contains(1, 0));
}

#[test]
fn parse_returns_normalized_for_watermark_scan() {
    let (_, scan) = parse("\u{feff}#!/bin/windy\nsisobus\n→@");
    assert!(scan.starts_with("sisobus"));
    assert!(!scan.contains('\u{feff}'));
}

#[test]
fn parse_rows_follow_normalized_line_ends() {
    let (g, text) = parse("#!/bin/windy\r\nA\rB\r\nC");
    assert_eq!(text, "A\nB\nC");
    assert_eq!(g.get(0, 0), Int::from_u32('A' as u32));
    assert_eq!(g.get(0, 1), Int::from_u32('B' as u32));
    assert_eq!(g.get(0, 2), Int::from_u32('C' as u32));
    assert_eq!(g.len(), 3);
}
