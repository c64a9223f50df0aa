//! The opcode table: each opcode's name and operand width.

use super::code::{is_opcode, operand_width, takes_operand};
use crate::buffer::{bytes_get_u16, bytes_get_u8, bytes_len, from_be16, frozen_bytes};
use bytes::Bytes;
use vstd::prelude::*;

verus! {

/// The name of an opcode.
pub open spec fn op_name(byte: u8) -> Seq<char> {
    if byte == 0 {
        "Const"@
    } else if byte == 1 {
        "Null"@
    } else if byte == 2 {
        "True"@
    } else if byte == 3 {
        "False"@
    } else if byte == 4 {
        "SetGVar"@
    } else if byte == 5 {
        "GetGVar"@
    } else if byte == 6 {
        "ToTuple"@
    } else if byte == 7 {
        "ToSet"@
    } else if byte == 8 {
        "ToTupleRn"@
    } else if byte == 9 {
        "ToSetRn"@
    } else if byte == 10 {
        "SetLVar"@
    } else if byte == 11 {
        "GetLVar"@
    } else if byte == 12 {
        "ToFn"@
    } else if byte == 20 {
        "Pop"@
    } else if byte == 21 {
        "PushMatch"@
    } else if byte == 22 {
        "PopMatch"@
    } else if byte == 23 {
        "Jump"@
    } else if byte == 24 {
        "JumpNotTrue"@
    } else if byte == 25 {
        "JumpNotMatch"@
    } else if byte == 100 {
        "Index"@
    } else if byte == 101 {
        "Range"@
    } else if byte == 102 {
        "Pick"@
    } else if byte == 103 {
        "Call"@
    } else if byte == 104 {
        "Return"@
    } else if byte == 200 {
        "NullCoal"@
    } else if byte == 201 {
        "TupleStart"@
    } else if byte == 202 {
        "Exp"@
    } else if byte == 203 {
        "Mult"@
    } else if byte == 204 {
        "Inter"@
    } else if byte == 205 {
        "Div"@
    } else if byte == 206 {
        "Mod"@
    } else if byte == 207 {
        "IntDiv"@
    } else if byte == 208 {
        "Add"@
    } else if byte == 209 {
        "Subtract"@
    } else if byte == 210 {
        "With"@
    } else if byte == 211 {
        "Less"@
    } else if byte == 212 {
        "Union"@
    } else if byte == 213 {
        "In"@
    } else if byte == 214 {
        "Notin"@
    } else if byte == 215 {
        "Subset"@
    } else if byte == 216 {
        "Lt"@
    } else if byte == 217 {
        "Lteq"@
    } else if byte == 218 {
        "Eq"@
    } else if byte == 219 {
        "Neq"@
    } else if byte == 220 {
        "And"@
    } else if byte == 221 {
        "Or"@
    } else if byte == 222 {
        "Impl"@
    } else if byte == 223 {
        "Iff"@
    } else if byte == 226 {
        "Negate"@
    } else if byte == 227 {
        "DynVar"@
    } else if byte == 228 {
        "Size"@
    } else if byte == 229 {
        "Not"@
    } else {
        Seq::empty()
    }
}

/// Looks an opcode up: the width of its operand in bytes and its name, or
/// `None` where the byte is no opcode.
pub fn lookup(byte: u8) -> (entry: Option<(usize, &'static str)>)
    ensures
        entry is Some <==> is_opcode(byte),
        entry matches Some((width, name)) ==> width == operand_width(byte) && name@ == op_name(
            byte,
        ),
{
    match byte {
        0 => Some((2, "Const")),
        1 => Some((0, "Null")),
        2 => Some((0, "True")),
        3 => Some((0, "False")),
        4 => Some((2, "SetGVar")),
        5 => Some((2, "GetGVar")),
        6 => Some((2, "ToTuple")),
        7 => Some((2, "ToSet")),
        8 => Some((2, "ToTupleRn")),
        9 => Some((2, "ToSetRn")),
        10 => Some((2, "SetLVar")),
        11 => Some((2, "GetLVar")),
        12 => Some((2, "ToFn")),
        20 => Some((0, "Pop")),
        21 => Some((0, "PushMatch")),
        22 => Some((0, "PopMatch")),
        23 => Some((2, "Jump")),
        24 => Some((2, "JumpNotTrue")),
        25 => Some((2, "JumpNotMatch")),
        100 => Some((0, "Index")),
        101 => Some((0, "Range")),
        102 => Some((0, "Pick")),
        103 => Some((2, "Call")),
        104 => Some((0, "Return")),
        200 => Some((0, "NullCoal")),
        201 => Some((0, "TupleStart")),
        202 => Some((0, "Exp")),
        203 => Some((0, "Mult")),
        204 => Some((0, "Inter")),
        205 => Some((0, "Div")),
        206 => Some((0, "Mod")),
        207 => Some((0, "IntDiv")),
        208 => Some((0, "Add")),
        209 => Some((0, "Subtract")),
        210 => Some((0, "With")),
        211 => Some((0, "Less")),
        212 => Some((0, "Union")),
        213 => Some((0, "In")),
        214 => Some((0, "Notin")),
        215 => Some((0, "Subset")),
        216 => Some((0, "Lt")),
        217 => Some((0, "Lteq")),
        218 => Some((0, "Eq")),
        219 => Some((0, "Neq")),
        220 => Some((0, "And")),
        221 => Some((0, "Or")),
        222 => Some((0, "Impl")),
        223 => Some((0, "Iff")),
        226 => Some((0, "Negate")),
        227 => Some((0, "DynVar")),
        228 => Some((0, "Size")),
        229 => Some((0, "Not")),
        _ => None,
    }
}

/// One instruction of a byte stream.
#[derive(Debug, Clone, Copy, PartialEq, Eq, Structural)]
pub struct Instruction {
    /// The position of the opcode.
    pub at: usize,
    /// The opcode.
    pub op: u8,
    /// The operand, for an opcode that takes one.
    pub operand: Option<u16>,
}

/// The instruction that stands at a position, if one does: an opcode and,
/// where the opcode takes one, its whole operand.
pub open spec fn instruction_at(code: Seq<u8>, at: int) -> Option<Instruction> {
    if at < 0 || at >= code.len() || !is_opcode(code[at]) {
        None
    } else if takes_operand(code[at]) {
        if at + 3 <= code.len() {
            Some(
                Instruction {
                    at: at as usize,
                    op: code[at],
                    operand: Some(from_be16(code[at + 1], code[at + 2])),
                },
            )
        } else {
            None
        }
    } else {
        Some(Instruction { at: at as usize, op: code[at], operand: None })
    }
}

/// The number of bytes that an instruction takes.
pub open spec fn instruction_len(instruction: Instruction) -> int {
    1 + operand_width(instruction.op) as int
}

/// The instructions from a position on, one behind the other, up to the end
/// of the code or to the first position at which none stands.
pub open spec fn instructions_from(code: Seq<u8>, at: int) -> Seq<Instruction>
    decreases code.len() - at,
{
    match instruction_at(code, at) {
        Some(instruction) => seq![instruction] + instructions_from(
            code,
            at + instruction_len(instruction),
        ),
        None => Seq::empty(),
    }
}

/// Reads the instruction at a position.
pub fn decode(code: &Bytes, at: usize) -> (found: Option<Instruction>)
    ensures
        found == instruction_at(frozen_bytes(*code), at as int),
{
    let len = bytes_len(code);
    if at >= len {
        return None;
    }
    let op = bytes_get_u8(code, at);
    match lookup(op) {
        None => None,
        Some((width, _)) => {
            if width == 0 {
                Some(Instruction { at, op, operand: None })
            } else if len - at >= 3 {
                Some(Instruction { at, op, operand: Some(bytes_get_u16(code, at + 1)) })
            } else {
                None
            }
        },
    }
}

/// Reads the instructions of a byte stream from its start, up to its end or
/// to the first byte that begins no instruction.
pub fn disassemble(code: &Bytes) -> (listing: Vec<Instruction>)
    ensures
        listing@ == instructions_from(frozen_bytes(*code), 0),
{
    let mut listing: Vec<Instruction> = Vec::new();
    let mut at: usize = 0;
    let len = bytes_len(code);
    assert(listing@ + instructions_from(frozen_bytes(*code), 0) =~= instructions_from(
        frozen_bytes(*code),
        0,
    ));
    loop
        invariant
            len == frozen_bytes(*code).len(),
            at <= len,
            listing@ + instructions_from(frozen_bytes(*code), at as int) == instructions_from(
                frozen_bytes(*code),
                0,
            ),
        decreases len - at,
    {
        let ghost rest = instructions_from(frozen_bytes(*code), at as int);
        match decode(code, at) {
            Some(instruction) => {
                let width: usize = if instruction.operand.is_some() {
                    3
                } else {
                    1
                };
                assert(listing@.push(instruction) + instructions_from(
                    frozen_bytes(*code),
                    at + width,
                ) =~= listing@ + rest);
                listing.push(instruction);
                at = at + width;
            },
            None => {
                assert(listing@ + rest =~= listing@);
                return listing;
            },
        }
    }
}

} // verus!
