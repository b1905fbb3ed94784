use windy::{char_to_op, decode_cell, Int, Op};

fn bi(n: u32) -> Int {
    Int::from_u32(n)
}

#[test]
fn decode_digit_carries_value() {
    assert_eq!(decode_cell(&bi(b'5' as u32)), (Op::PushDigit, 5));
    assert_eq!(decode_cell(&bi(b'0' as u32)), (Op::PushDigit, 0));
    assert_eq!(decode_cell(&bi(b'9' as u32)), (Op::PushDigit, 9));
}

#[test]
fn decode_known_glyph() {
    assert_eq!(decode_cell(&bi(b'@' as u32)), (Op::Halt, 0));
    assert_eq!(decode_cell(&bi('→' as u32)), (Op::MoveE, 0));
}

#[test]
fn decode_ascii_alias_matches_unicode() {
    assert_eq!(decode_cell(&bi(b'>' as u32)), (Op::MoveE, 0));
    assert_eq!(decode_cell(&bi(b'v' as u32)), (Op::MoveS, 0));
}

#[test]
fn decode_space_is_nop() {
    assert_eq!(decode_cell(&bi(0x20)), (Op::Nop, 0));
}

#[test]
fn decode_unknown_glyph() {
    // 'Z' is not in the op table.
    assert_eq!(decode_cell(&bi(b'Z' as u32)), (Op::Unknown, 0));
}

#[test]
fn decode_out_of_range_is_unknown() {
    let big = Int::parse_decimal(&u64::MAX.to_string())
        .unwrap()
        .times(&Int::from_u32(1_000_000));
    assert_eq!(decode_cell(&big), (Op::Unknown, 0));
}

#[test]
fn decode_gust_calm() {
    assert_eq!(decode_cell(&bi('≫' as u32)), (Op::Gust, 0));
    assert_eq!(decode_cell(&bi('≪' as u32)), (Op::Calm, 0));
}

#[test]
fn decode_negative_and_surrogate_are_unknown() {
    assert_eq!(decode_cell(&Int::from_i64(-1)), (Op::Unknown, 0));
    assert_eq!(decode_cell(&bi(0xD800)), (Op::Unknown, 0));
    assert_eq!(decode_cell(&bi(0x110000)), (Op::Unknown, 0));
}

#[test]
fn every_glyph_decodes_to_its_opcode() {
    let table: &[(char, Op)] = &[
        (' ', Op::Nop), ('·', Op::Nop), ('@', Op::Halt), ('#', Op::Trampoline),
        ('t', Op::Split), ('→', Op::MoveE), ('>', Op::MoveE), ('↗', Op::MoveNe),
        ('↑', Op::MoveN), ('^', Op::MoveN), ('↖', Op::MoveNw), ('←', Op::MoveW),
        ('<', Op::MoveW), ('↙', Op::MoveSw), ('↓', Op::MoveS), ('v', Op::MoveS),
        ('↘', Op::MoveSe), ('~', Op::Turbulence), ('"', Op::StrMode), ('+', Op::Add),
        ('-', Op::Sub), ('*', Op::Mul), ('/', Op::Div), ('%', Op::Mod), ('!', Op::Not),
        ('`', Op::Gt), (':', Op::Dup), ('$', Op::Drop), ('\\', Op::Swap), ('_', Op::IfH),
        ('|', Op::IfV), ('.', Op::PutNum), (',', Op::PutChr), ('&', Op::GetNum),
        ('?', Op::GetChr), ('g', Op::GridGet), ('p', Op::GridPut), ('≫', Op::Gust),
        ('≪', Op::Calm),
    ];
    for &(c, op) in table {
        assert_eq!(char_to_op(c), Some(op));
        assert_eq!(decode_cell(&bi(c as u32)), (op, 0));
    }
    assert_eq!(char_to_op('5'), None);
}

#[test]
fn op_names() {
    assert_eq!(Op::Nop.name(), "NOP");
    assert_eq!(Op::PushDigit.name(), "PUSH_DIGIT");
    assert_eq!(Op::GridPut.name(), "GRID_PUT");
    assert_eq!(Op::Unknown.name(), "UNKNOWN");
}
