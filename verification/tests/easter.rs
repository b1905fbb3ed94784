use windy::{banner, detect, SIGNATURE, VERSION};

#[test]
fn signature_literal() {
    assert_eq!(SIGNATURE, "sisobus");
}

#[test]
fn detect_positive() {
    assert!(detect("# sisobus was here\n→.@"));
}

#[test]
fn detect_negative() {
    assert!(!detect("→.@"));
}

#[test]
fn detect_needs_the_whole_signature() {
    assert!(!detect("sisobu"));
    assert!(!detect("SISOBUS"));
    assert!(detect("sisobus"));
    assert!(detect("xxsisobus"));
    assert!(!detect(""));
}

#[test]
fn banner_mentions_author() {
    let b = banner();
    assert!(b.contains("Kim Sangkeun"));
    assert!(b.contains("sisobus"));
}

#[test]
fn banner_tracks_crate_version() {
    assert!(banner().contains(VERSION));
}

#[test]
fn banner_lines_are_aligned() {
    let b = banner();
    let lines: Vec<&str> = b.lines().collect();
    assert_eq!(lines.len(), 4);
    let widths: Vec<usize> = lines.iter().map(|l| l.chars().count()).collect();
    assert!(
        widths.iter().all(|&w| w == widths[0]),
        "banner lines must all share the same display width: {widths:?}",
    );
}

#[test]
fn banner_exact_text() {
    let expected = format!(
        "╔{bar}╗\n║  Windy v{v}{pad}║\n║  Crafted by Kim Sangkeun (@sisobus)   ║\n╚{bar}╝",
        bar = "═".repeat(39),
        v = VERSION,
        pad = " ".repeat(39 - 9 - VERSION.chars().count()),
    );
    assert_eq!(banner(), expected);
}

#[test]
fn pad_to_width_pads_by_characters() {
    assert_eq!(windy::easter::pad_to_width("→a", 4), "→a  ");
    assert_eq!(windy::easter::pad_to_width("abcdef", 4), "abcdef");
}
