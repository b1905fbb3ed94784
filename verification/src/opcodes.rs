//! The opcodes and the decoding of a cell value into an opcode.

use crate::text::{char_from_u32, is_scalar_value};
use crate::value::Int;
use vstd::prelude::*;

verus! {

/// Every opcode, plus `Unknown` for a value that names none.
#[derive(Clone, Copy, Debug, PartialEq, Eq, Structural)]
pub enum Op {
    Nop,
    Halt,
    Trampoline,
    Split,
    MoveE,
    MoveNe,
    MoveN,
    MoveNw,
    MoveW,
    MoveSw,
    MoveS,
    MoveSe,
    Turbulence,
    PushDigit,
    StrMode,
    Add,
    Sub,
    Mul,
    Div,
    Mod,
    Not,
    Gt,
    Dup,
    Drop,
    Swap,
    IfH,
    IfV,
    PutNum,
    PutChr,
    GetNum,
    GetChr,
    GridGet,
    GridPut,
    Gust,
    Calm,
    Unknown,
}

/// The printed name of each opcode.
pub open spec fn op_name(op: Op) -> Seq<char> {
    match op {
        Op::Nop => "NOP"@,
        Op::Halt => "HALT"@,
        Op::Trampoline => "TRAMPOLINE"@,
        Op::Split => "SPLIT"@,
        Op::MoveE => "MOVE_E"@,
        Op::MoveNe => "MOVE_NE"@,
        Op::MoveN => "MOVE_N"@,
        Op::MoveNw => "MOVE_NW"@,
        Op::MoveW => "MOVE_W"@,
        Op::MoveSw => "MOVE_SW"@,
        Op::MoveS => "MOVE_S"@,
        Op::MoveSe => "MOVE_SE"@,
        Op::Turbulence => "TURBULENCE"@,
        Op::PushDigit => "PUSH_DIGIT"@,
        Op::StrMode => "STR_MODE"@,
        Op::Add => "ADD"@,
        Op::Sub => "SUB"@,
        Op::Mul => "MUL"@,
        Op::Div => "DIV"@,
        Op::Mod => "MOD"@,
        Op::Not => "NOT"@,
        Op::Gt => "GT"@,
        Op::Dup => "DUP"@,
        Op::Drop => "DROP"@,
        Op::Swap => "SWAP"@,
        Op::IfH => "IF_H"@,
        Op::IfV => "IF_V"@,
        Op::PutNum => "PUT_NUM"@,
        Op::PutChr => "PUT_CHR"@,
        Op::GetNum => "GET_NUM"@,
        Op::GetChr => "GET_CHR"@,
        Op::GridGet => "GRID_GET"@,
        Op::GridPut => "GRID_PUT"@,
        Op::Gust => "GUST"@,
        Op::Calm => "CALM"@,
        Op::Unknown => "UNKNOWN"@,
    }
}

/// The glyphs of each opcode: the primary glyph and its ASCII alias, if any.
/// Digits are not glyphs of an opcode: a digit cell carries its value.
pub open spec fn is_glyph_of(c: char, op: Op) -> bool {
    match op {
        Op::Nop => c == ' ' || c == '·',
        Op::Halt => c == '@',
        Op::Trampoline => c == '#',
        Op::Split => c == 't',
        Op::MoveE => c == '→' || c == '>',
        Op::MoveNe => c == '↗',
        Op::MoveN => c == '↑' || c == '^',
        Op::MoveNw => c == '↖',
        Op::MoveW => c == '←' || c == '<',
        Op::MoveSw => c == '↙',
        Op::MoveS => c == '↓' || c == 'v',
        Op::MoveSe => c == '↘',
        Op::Turbulence => c == '~',
        Op::StrMode => c == '"',
        Op::Add => c == '+',
        Op::Sub => c == '-',
        Op::Mul => c == '*',
        Op::Div => c == '/',
        Op::Mod => c == '%',
        Op::Not => c == '!',
        Op::Gt => c == '`',
        Op::Dup => c == ':',
        Op::Drop => c == '$',
        Op::Swap => c == '\\',
        Op::IfH => c == '_',
        Op::IfV => c == '|',
        Op::PutNum => c == '.',
        Op::PutChr => c == ',',
        Op::GetNum => c == '&',
        Op::GetChr => c == '?',
        Op::GridGet => c == 'g',
        Op::GridPut => c == 'p',
        Op::Gust => c == '≫',
        Op::Calm => c == '≪',
        Op::PushDigit | Op::Unknown => false,
    }
}

/// The opcode that `c` is a glyph of, or `Unknown`.
pub open spec fn glyph_op(c: char) -> Op {
    if exists|op: Op| is_glyph_of(c, op) {
        choose|op: Op| is_glyph_of(c, op)
    } else {
        Op::Unknown
    }
}

/// Decoding of a cell value: a digit carries its value, a glyph names its
/// opcode, and anything else (no Unicode scalar, or no glyph) is `Unknown`.
pub open spec fn decode_spec(v: int) -> (Op, u32) {
    if 0x30 <= v <= 0x39 {
        (Op::PushDigit, (v - 0x30) as u32)
    } else if is_scalar_value(v) {
        (glyph_op(v as char), 0)
    } else {
        (Op::Unknown, 0)
    }
}

/// No character is a glyph of two opcodes.
pub proof fn lemma_glyphs_distinct(c: char, a: Op, b: Op)
    requires
        is_glyph_of(c, a),
        is_glyph_of(c, b),
    ensures
        a == b,
{
}

/// The opcode a printed name belongs to, told apart by the name's length,
/// its first character and its last two characters.
pub open spec fn op_of_name(s: Seq<char>) -> Op {
    let k = (s.len() as int, s[0], s[s.len() - 1], s[s.len() - 2]);
    if k == (3int, 'N', 'P', 'O') {
        Op::Nop
    } else if k == (4int, 'H', 'T', 'L') {
        Op::Halt
    } else if k == (10int, 'T', 'E', 'N') {
        Op::Trampoline
    } else if k == (5int, 'S', 'T', 'I') {
        Op::Split
    } else if k == (6int, 'M', 'E', '_') {
        Op::MoveE
    } else if k == (7int, 'M', 'E', 'N') {
        Op::MoveNe
    } else if k == (6int, 'M', 'N', '_') {
        Op::MoveN
    } else if k == (7int, 'M', 'W', 'N') {
        Op::MoveNw
    } else if k == (6int, 'M', 'W', '_') {
        Op::MoveW
    } else if k == (7int, 'M', 'W', 'S') {
        Op::MoveSw
    } else if k == (6int, 'M', 'S', '_') {
        Op::MoveS
    } else if k == (7int, 'M', 'E', 'S') {
        Op::MoveSe
    } else if k == (10int, 'T', 'E', 'C') {
        Op::Turbulence
    } else if k == (10int, 'P', 'T', 'I') {
        Op::PushDigit
    } else if k == (8int, 'S', 'E', 'D') {
        Op::StrMode
    } else if k == (3int, 'A', 'D', 'D') {
        Op::Add
    } else if k == (3int, 'S', 'B', 'U') {
        Op::Sub
    } else if k == (3int, 'M', 'L', 'U') {
        Op::Mul
    } else if k == (3int, 'D', 'V', 'I') {
        Op::Div
    } else if k == (3int, 'M', 'D', 'O') {
        Op::Mod
    } else if k == (3int, 'N', 'T', 'O') {
        Op::Not
    } else if k == (2int, 'G', 'T', 'G') {
        Op::Gt
    } else if k == (3int, 'D', 'P', 'U') {
        Op::Dup
    } else if k == (4int, 'D', 'P', 'O') {
        Op::Drop
    } else if k == (4int, 'S', 'P', 'A') {
        Op::Swap
    } else if k == (4int, 'I', 'H', '_') {
        Op::IfH
    } else if k == (4int, 'I', 'V', '_') {
        Op::IfV
    } else if k == (7int, 'P', 'M', 'U') {
        Op::PutNum
    } else if k == (7int, 'P', 'R', 'H') {
        Op::PutChr
    } else if k == (7int, 'G', 'M', 'U') {
        Op::GetNum
    } else if k == (7int, 'G', 'R', 'H') {
        Op::GetChr
    } else if k == (8int, 'G', 'T', 'E') {
        Op::GridGet
    } else if k == (8int, 'G', 'T', 'U') {
        Op::GridPut
    } else if k == (4int, 'G', 'T', 'S') {
        Op::Gust
    } else if k == (4int, 'C', 'M', 'L') {
        Op::Calm
    } else if k == (7int, 'U', 'N', 'W') {
        Op::Unknown
    } else {
        Op::Unknown
    }
}

/// Each opcode's printed name leads back to it.
pub proof fn lemma_op_of_name(op: Op)
    ensures
        op_of_name(op_name(op)) == op,
{
    match op {
        Op::Nop => {
            reveal_strlit("NOP");
        },
        Op::Halt => {
            reveal_strlit("HALT");
        },
        Op::Trampoline => {
            reveal_strlit("TRAMPOLINE");
        },
        Op::Split => {
            reveal_strlit("SPLIT");
        },
        Op::MoveE => {
            reveal_strlit("MOVE_E");
        },
        Op::MoveNe => {
            reveal_strlit("MOVE_NE");
        },
        Op::MoveN => {
            reveal_strlit("MOVE_N");
        },
        Op::MoveNw => {
            reveal_strlit("MOVE_NW");
        },
        Op::MoveW => {
            reveal_strlit("MOVE_W");
        },
        Op::MoveSw => {
            reveal_strlit("MOVE_SW");
        },
        Op::MoveS => {
            reveal_strlit("MOVE_S");
        },
        Op::MoveSe => {
            reveal_strlit("MOVE_SE");
        },
        Op::Turbulence => {
            reveal_strlit("TURBULENCE");
        },
        Op::PushDigit => {
            reveal_strlit("PUSH_DIGIT");
        },
        Op::StrMode => {
            reveal_strlit("STR_MODE");
        },
        Op::Add => {
            reveal_strlit("ADD");
        },
        Op::Sub => {
            reveal_strlit("SUB");
        },
        Op::Mul => {
            reveal_strlit("MUL");
        },
        Op::Div => {
            reveal_strlit("DIV");
        },
        Op::Mod => {
            reveal_strlit("MOD");
        },
        Op::Not => {
            reveal_strlit("NOT");
        },
        Op::Gt => {
            reveal_strlit("GT");
        },
        Op::Dup => {
            reveal_strlit("DUP");
        },
        Op::Drop => {
            reveal_strlit("DROP");
        },
        Op::Swap => {
            reveal_strlit("SWAP");
        },
        Op::IfH => {
            reveal_strlit("IF_H");
        },
        Op::IfV => {
            reveal_strlit("IF_V");
        },
        Op::PutNum => {
            reveal_strlit("PUT_NUM");
        },
        Op::PutChr => {
            reveal_strlit("PUT_CHR");
        },
        Op::GetNum => {
            reveal_strlit("GET_NUM");
        },
        Op::GetChr => {
            reveal_strlit("GET_CHR");
        },
        Op::GridGet => {
            reveal_strlit("GRID_GET");
        },
        Op::GridPut => {
            reveal_strlit("GRID_PUT");
        },
        Op::Gust => {
            reveal_strlit("GUST");
        },
        Op::Calm => {
            reveal_strlit("CALM");
        },
        Op::Unknown => {
            reveal_strlit("UNKNOWN");
        },
    }
}

/// Different opcodes have different printed names.
pub proof fn lemma_names_distinct(a: Op, b: Op)
    requires
        a != b,
    ensures
        op_name(a) != op_name(b),
{
    lemma_op_of_name(a);
    lemma_op_of_name(b);
}

impl Op {
    /// The printed name of the opcode.
    pub fn name(&self) -> (r: &'static str)
        ensures
            r@ == op_name(*self),
    {
        match self {
            Op::Nop => "NOP",
            Op::Halt => "HALT",
            Op::Trampoline => "TRAMPOLINE",
            Op::Split => "SPLIT",
            Op::MoveE => "MOVE_E",
            Op::MoveNe => "MOVE_NE",
            Op::MoveN => "MOVE_N",
            Op::MoveNw => "MOVE_NW",
            Op::MoveW => "MOVE_W",
            Op::MoveSw => "MOVE_SW",
            Op::MoveS => "MOVE_S",
            Op::MoveSe => "MOVE_SE",
            Op::Turbulence => "TURBULENCE",
            Op::PushDigit => "PUSH_DIGIT",
            Op::StrMode => "STR_MODE",
            Op::Add => "ADD",
            Op::Sub => "SUB",
            Op::Mul => "MUL",
            Op::Div => "DIV",
            Op::Mod => "MOD",
            Op::Not => "NOT",
            Op::Gt => "GT",
            Op::Dup => "DUP",
            Op::Drop => "DROP",
            Op::Swap => "SWAP",
            Op::IfH => "IF_H",
            Op::IfV => "IF_V",
            Op::PutNum => "PUT_NUM",
            Op::PutChr => "PUT_CHR",
            Op::GetNum => "GET_NUM",
            Op::GetChr => "GET_CHR",
            Op::GridGet => "GRID_GET",
            Op::GridPut => "GRID_PUT",
            Op::Gust => "GUST",
            Op::Calm => "CALM",
            Op::Unknown => "UNKNOWN",
        }
    }
}

/// The opcode whose glyph `c` is, if any.
pub fn char_to_op(c: char) -> (r: Option<Op>)
    ensures
        r matches Some(op) ==> is_glyph_of(c, op),
        r is None ==> forall|op: Op| !is_glyph_of(c, op),
{
    match c {
        ' ' | '·' => Some(Op::Nop),
        '@' => Some(Op::Halt),
        '#' => Some(Op::Trampoline),
        't' => Some(Op::Split),
        '→' | '>' => Some(Op::MoveE),
        '↗' => Some(Op::MoveNe),
        '↑' | '^' => Some(Op::MoveN),
        '↖' => Some(Op::MoveNw),
        '←' | '<' => Some(Op::MoveW),
        '↙' => Some(Op::MoveSw),
        '↓' | 'v' => Some(Op::MoveS),
        '↘' => Some(Op::MoveSe),
        '~' => Some(Op::Turbulence),
        '"' => Some(Op::StrMode),
        '+' => Some(Op::Add),
        '-' => Some(Op::Sub),
        '*' => Some(Op::Mul),
        '/' => Some(Op::Div),
        '%' => Some(Op::Mod),
        '!' => Some(Op::Not),
        '`' => Some(Op::Gt),
        ':' => Some(Op::Dup),
        '$' => Some(Op::Drop),
        '\\' => Some(Op::Swap),
        '_' => Some(Op::IfH),
        '|' => Some(Op::IfV),
        '.' => Some(Op::PutNum),
        ',' => Some(Op::PutChr),
        '&' => Some(Op::GetNum),
        '?' => Some(Op::GetChr),
        'g' => Some(Op::GridGet),
        'p' => Some(Op::GridPut),
        '≫' => Some(Op::Gust),
        '≪' => Some(Op::Calm),
        _ => None,
    }
}

/// Decodes a cell value into `(opcode, operand)`; the operand is the digit's
/// value for `PushDigit` and `0` otherwise.
pub fn decode_cell(cell: &Int) -> (r: (Op, u32))
    ensures
        r == decode_spec(cell@),
{
    let cp = match cell.to_u32() {
        Some(v) => {
            if v <= 0x10FFFF {
                v
            } else {
                return (Op::Unknown, 0);
            }
        },
        None => {
            return (Op::Unknown, 0);
        },
    };
    if 0x30 <= cp && cp <= 0x39 {
        return (Op::PushDigit, cp - 0x30);
    }
    if cp == 0x20 {
        assert(is_glyph_of(' ', Op::Nop));
        assert(glyph_op(' ') == Op::Nop) by {
            let op = choose|op: Op| is_glyph_of(' ', op);
            lemma_glyphs_distinct(' ', op, Op::Nop);
        }
        return (Op::Nop, 0);
    }
    let ch = match char_from_u32(cp) {
        Some(c) => c,
        None => {
            return (Op::Unknown, 0);
        },
    };
    match char_to_op(ch) {
        Some(op) => {
            assert(glyph_op(ch) == op) by {
                let o = choose|o: Op| is_glyph_of(ch, o);
                lemma_glyphs_distinct(ch, o, op);
            }
            (op, 0)
        },
        None => (Op::Unknown, 0),
    }
}

} // verus!
