//! Opcodes and their encoding.
//!
//! An instruction is one opcode byte, followed for some opcodes by a 16-bit
//! operand in big-endian order. Every opcode is a unit struct: `VAL` is its
//! byte, and `make` encodes one instruction.

use crate::buffer::{
    be16, buffer_freeze, buffer_put_u16, buffer_put_u8, buffer_with_capacity, frozen_bytes,
};
use bytes::Bytes;
use vstd::prelude::*;

verus! {

/// Encodes an instruction that has no operand.
pub trait OpCodeMake: Sized {
    /// The bytes of the instruction.
    spec fn encoding(self) -> Seq<u8>;

    fn make(self) -> (bytes: Bytes)
        ensures
            frozen_bytes(bytes) == self.encoding(),
    ;
}

/// Encodes an instruction that has one 16-bit operand.
pub trait OpCodeMakeWithU16: Sized {
    /// The bytes of the instruction with the given operand.
    spec fn encoding(self, operand: u16) -> Seq<u8>;

    fn make(self, operand: u16) -> (bytes: Bytes)
        ensures
            frozen_bytes(bytes) == self.encoding(operand),
    ;
}

/// Gives an opcode its byte.
pub trait OpCode {
    const VAL: u8;

    /// The opcode's byte, for contracts and proofs.
    spec fn byte() -> u8;

    /// `VAL` is the opcode's byte.
    proof fn val_is_byte()
        ensures
            Self::VAL == Self::byte(),
    ;
}

/// Marks the opcodes that take no operand.
pub trait OpCodeNone {
}

/// Marks the opcodes that take a single 2-byte operand.
pub trait OpCodeU16 {
}

impl<T: Sized + OpCode + OpCodeNone> OpCodeMake for T {
    open spec fn encoding(self) -> Seq<u8> {
        seq![T::byte()]
    }

    fn make(self) -> (bytes: Bytes) {
        proof {
            T::val_is_byte();
        }
        let mut bytes = buffer_with_capacity(1);
        buffer_put_u8(&mut bytes, Self::VAL);
        let bytes = buffer_freeze(bytes);
        assert(frozen_bytes(bytes) =~= seq![T::byte()]);
        bytes
    }
}

impl<T: Sized + OpCode + OpCodeU16> OpCodeMakeWithU16 for T {
    open spec fn encoding(self, operand: u16) -> Seq<u8> {
        seq![T::byte()] + be16(operand)
    }

    fn make(self, operand: u16) -> (bytes: Bytes) {
        proof {
            T::val_is_byte();
        }
        let mut bytes = buffer_with_capacity(1);
        buffer_put_u8(&mut bytes, Self::VAL);
        buffer_put_u16(&mut bytes, operand);
        let bytes = buffer_freeze(bytes);
        assert(frozen_bytes(bytes) =~= seq![T::byte()] + be16(operand));
        bytes
    }
}

/// Whether the byte is an opcode that is followed by a 16-bit operand.
pub open spec fn takes_operand(byte: u8) -> bool {
    byte == 0 || (4 <= byte <= 12) || (23 <= byte <= 25) || byte == 103
}

/// Whether the byte is an opcode.
pub open spec fn is_opcode(byte: u8) -> bool {
    byte <= 12 || (20 <= byte <= 25) || (100 <= byte <= 104) || (200 <= byte <= 223) || (226
        <= byte <= 229)
}

/// The number of operand bytes that follow the opcode.
pub open spec fn operand_width(byte: u8) -> nat {
    if takes_operand(byte) {
        2
    } else {
        0
    }
}

/// `0`: push the constant at the operand's index.
#[derive(Debug)]
pub struct Const;

impl OpCodeU16 for Const {
}

impl OpCode for Const {
    const VAL: u8 = 0;

    open spec fn byte() -> u8 {
        0
    }

    proof fn val_is_byte() {
    }
}

/// `1`: push null.
#[derive(Debug)]
pub struct Null;

impl OpCodeNone for Null {
}

impl OpCode for Null {
    const VAL: u8 = 1;

    open spec fn byte() -> u8 {
        1
    }

    proof fn val_is_byte() {
    }
}

/// `2`: push true.
#[derive(Debug)]
pub struct True;

impl OpCodeNone for True {
}

impl OpCode for True {
    const VAL: u8 = 2;

    open spec fn byte() -> u8 {
        2
    }

    proof fn val_is_byte() {
    }
}

/// `3`: push false.
#[derive(Debug)]
pub struct False;

impl OpCodeNone for False {
}

impl OpCode for False {
    const VAL: u8 = 3;

    open spec fn byte() -> u8 {
        3
    }

    proof fn val_is_byte() {
    }
}

/// `4`: store the top of the stack in a global slot.
#[derive(Debug)]
pub struct SetGVar;

impl OpCodeU16 for SetGVar {
}

impl OpCode for SetGVar {
    const VAL: u8 = 4;

    open spec fn byte() -> u8 {
        4
    }

    proof fn val_is_byte() {
    }
}

/// `5`: push the value of a global slot.
#[derive(Debug)]
pub struct GetGVar;

impl OpCodeU16 for GetGVar {
}

impl OpCode for GetGVar {
    const VAL: u8 = 5;

    open spec fn byte() -> u8 {
        5
    }

    proof fn val_is_byte() {
    }
}

/// `6`: wrap the top values into a tuple.
#[derive(Debug)]
pub struct ToTuple;

impl OpCodeU16 for ToTuple {
}

impl OpCode for ToTuple {
    const VAL: u8 = 6;

    open spec fn byte() -> u8 {
        6
    }

    proof fn val_is_byte() {
    }
}

/// `7`: wrap the top values into a set.
#[derive(Debug)]
pub struct ToSet;

impl OpCodeU16 for ToSet {
}

impl OpCode for ToSet {
    const VAL: u8 = 7;

    open spec fn byte() -> u8 {
        7
    }

    proof fn val_is_byte() {
    }
}

/// `8`: build a tuple from a range.
#[derive(Debug)]
pub struct ToTupleRn;

impl OpCodeU16 for ToTupleRn {
}

impl OpCode for ToTupleRn {
    const VAL: u8 = 8;

    open spec fn byte() -> u8 {
        8
    }

    proof fn val_is_byte() {
    }
}

/// `9`: build a set from a range.
#[derive(Debug)]
pub struct ToSetRn;

impl OpCodeU16 for ToSetRn {
}

impl OpCode for ToSetRn {
    const VAL: u8 = 9;

    open spec fn byte() -> u8 {
        9
    }

    proof fn val_is_byte() {
    }
}

/// `10`: store the top of the stack in a local slot.
#[derive(Debug)]
pub struct SetLVar;

impl OpCodeU16 for SetLVar {
}

impl OpCode for SetLVar {
    const VAL: u8 = 10;

    open spec fn byte() -> u8 {
        10
    }

    proof fn val_is_byte() {
    }
}

/// `11`: push the value of a local slot.
#[derive(Debug)]
pub struct GetLVar;

impl OpCodeU16 for GetLVar {
}

impl OpCode for GetLVar {
    const VAL: u8 = 11;

    open spec fn byte() -> u8 {
        11
    }

    proof fn val_is_byte() {
    }
}

/// `12`: attach captured values to a function.
#[derive(Debug)]
pub struct ToFn;

impl OpCodeU16 for ToFn {
}

impl OpCode for ToFn {
    const VAL: u8 = 12;

    open spec fn byte() -> u8 {
        12
    }

    proof fn val_is_byte() {
    }
}

/// `20`: pop the top of the stack.
#[derive(Debug)]
pub struct Pop;

impl OpCodeNone for Pop {
}

impl OpCode for Pop {
    const VAL: u8 = 20;

    open spec fn byte() -> u8 {
        20
    }

    proof fn val_is_byte() {
    }
}

/// `21`: move the top of the stack to the match stack.
#[derive(Debug)]
pub struct PushMatch;

impl OpCodeNone for PushMatch {
}

impl OpCode for PushMatch {
    const VAL: u8 = 21;

    open spec fn byte() -> u8 {
        21
    }

    proof fn val_is_byte() {
    }
}

/// `22`: pop the match stack.
#[derive(Debug)]
pub struct PopMatch;

impl OpCodeNone for PopMatch {
}

impl OpCode for PopMatch {
    const VAL: u8 = 22;

    open spec fn byte() -> u8 {
        22
    }

    proof fn val_is_byte() {
    }
}

/// `23`: jump to the operand's address.
#[derive(Debug)]
pub struct Jump;

impl OpCodeU16 for Jump {
}

impl OpCode for Jump {
    const VAL: u8 = 23;

    open spec fn byte() -> u8 {
        23
    }

    proof fn val_is_byte() {
    }
}

/// `24`: pop, and jump unless the value is truthy.
#[derive(Debug)]
pub struct JumpNotTrue;

impl OpCodeU16 for JumpNotTrue {
}

impl OpCode for JumpNotTrue {
    const VAL: u8 = 24;

    open spec fn byte() -> u8 {
        24
    }

    proof fn val_is_byte() {
    }
}

/// `25`: pop, and jump unless the value equals the match subject.
#[derive(Debug)]
pub struct JumpNotMatch;

impl OpCodeU16 for JumpNotMatch {
}

impl OpCode for JumpNotMatch {
    const VAL: u8 = 25;

    open spec fn byte() -> u8 {
        25
    }

    proof fn val_is_byte() {
    }
}

/// `100`: index into a string or tuple.
#[derive(Debug)]
pub struct Index;

impl OpCodeNone for Index {
}

impl OpCode for Index {
    const VAL: u8 = 100;

    open spec fn byte() -> u8 {
        100
    }

    proof fn val_is_byte() {
    }
}

/// `101`: reserved: range selector.
#[derive(Debug)]
pub struct Range;

impl OpCodeNone for Range {
}

impl OpCode for Range {
    const VAL: u8 = 101;

    open spec fn byte() -> u8 {
        101
    }

    proof fn val_is_byte() {
    }
}

/// `102`: reserved: pick selector.
#[derive(Debug)]
pub struct Pick;

impl OpCodeNone for Pick {
}

impl OpCode for Pick {
    const VAL: u8 = 102;

    open spec fn byte() -> u8 {
        102
    }

    proof fn val_is_byte() {
    }
}

/// `103`: call a function with the operand's number of arguments.
#[derive(Debug)]
pub struct Call;

impl OpCodeU16 for Call {
}

impl OpCode for Call {
    const VAL: u8 = 103;

    open spec fn byte() -> u8 {
        103
    }

    proof fn val_is_byte() {
    }
}

/// `104`: return from a function.
#[derive(Debug)]
pub struct Return;

impl OpCodeNone for Return {
}

impl OpCode for Return {
    const VAL: u8 = 104;

    open spec fn byte() -> u8 {
        104
    }

    proof fn val_is_byte() {
    }
}

/// `200`: null coalescing.
#[derive(Debug)]
pub struct NullCoal;

impl OpCodeNone for NullCoal {
}

impl OpCode for NullCoal {
    const VAL: u8 = 200;

    open spec fn byte() -> u8 {
        200
    }

    proof fn val_is_byte() {
    }
}

/// `201`: tuple start.
#[derive(Debug)]
pub struct TupleStart;

impl OpCodeNone for TupleStart {
}

impl OpCode for TupleStart {
    const VAL: u8 = 201;

    open spec fn byte() -> u8 {
        201
    }

    proof fn val_is_byte() {
    }
}

/// `202`: exponentiation.
#[derive(Debug)]
pub struct Exp;

impl OpCodeNone for Exp {
}

impl OpCode for Exp {
    const VAL: u8 = 202;

    open spec fn byte() -> u8 {
        202
    }

    proof fn val_is_byte() {
    }
}

/// `203`: multiplication.
#[derive(Debug)]
pub struct Mult;

impl OpCodeNone for Mult {
}

impl OpCode for Mult {
    const VAL: u8 = 203;

    open spec fn byte() -> u8 {
        203
    }

    proof fn val_is_byte() {
    }
}

/// `204`: set intersection.
#[derive(Debug)]
pub struct Inter;

impl OpCodeNone for Inter {
}

impl OpCode for Inter {
    const VAL: u8 = 204;

    open spec fn byte() -> u8 {
        204
    }

    proof fn val_is_byte() {
    }
}

/// `205`: division.
#[derive(Debug)]
pub struct Div;

impl OpCodeNone for Div {
}

impl OpCode for Div {
    const VAL: u8 = 205;

    open spec fn byte() -> u8 {
        205
    }

    proof fn val_is_byte() {
    }
}

/// `206`: remainder.
#[derive(Debug)]
pub struct Mod;

impl OpCodeNone for Mod {
}

impl OpCode for Mod {
    const VAL: u8 = 206;

    open spec fn byte() -> u8 {
        206
    }

    proof fn val_is_byte() {
    }
}

/// `207`: integer division.
#[derive(Debug)]
pub struct IntDiv;

impl OpCodeNone for IntDiv {
}

impl OpCode for IntDiv {
    const VAL: u8 = 207;

    open spec fn byte() -> u8 {
        207
    }

    proof fn val_is_byte() {
    }
}

/// `208`: addition.
#[derive(Debug)]
pub struct Add;

impl OpCodeNone for Add {
}

impl OpCode for Add {
    const VAL: u8 = 208;

    open spec fn byte() -> u8 {
        208
    }

    proof fn val_is_byte() {
    }
}

/// `209`: subtraction.
#[derive(Debug)]
pub struct Subtract;

impl OpCodeNone for Subtract {
}

impl OpCode for Subtract {
    const VAL: u8 = 209;

    open spec fn byte() -> u8 {
        209
    }

    proof fn val_is_byte() {
    }
}

/// `210`: set with an element.
#[derive(Debug)]
pub struct With;

impl OpCodeNone for With {
}

impl OpCode for With {
    const VAL: u8 = 210;

    open spec fn byte() -> u8 {
        210
    }

    proof fn val_is_byte() {
    }
}

/// `211`: set less an element.
#[derive(Debug)]
pub struct Less;

impl OpCodeNone for Less {
}

impl OpCode for Less {
    const VAL: u8 = 211;

    open spec fn byte() -> u8 {
        211
    }

    proof fn val_is_byte() {
    }
}

/// `212`: set union.
#[derive(Debug)]
pub struct Union;

impl OpCodeNone for Union {
}

impl OpCode for Union {
    const VAL: u8 = 212;

    open spec fn byte() -> u8 {
        212
    }

    proof fn val_is_byte() {
    }
}

/// `213`: membership.
#[derive(Debug)]
pub struct In;

impl OpCodeNone for In {
}

impl OpCode for In {
    const VAL: u8 = 213;

    open spec fn byte() -> u8 {
        213
    }

    proof fn val_is_byte() {
    }
}

/// `214`: non-membership.
#[derive(Debug)]
pub struct Notin;

impl OpCodeNone for Notin {
}

impl OpCode for Notin {
    const VAL: u8 = 214;

    open spec fn byte() -> u8 {
        214
    }

    proof fn val_is_byte() {
    }
}

/// `215`: subset.
#[derive(Debug)]
pub struct Subset;

impl OpCodeNone for Subset {
}

impl OpCode for Subset {
    const VAL: u8 = 215;

    open spec fn byte() -> u8 {
        215
    }

    proof fn val_is_byte() {
    }
}

/// `216`: less than.
#[derive(Debug)]
pub struct Lt;

impl OpCodeNone for Lt {
}

impl OpCode for Lt {
    const VAL: u8 = 216;

    open spec fn byte() -> u8 {
        216
    }

    proof fn val_is_byte() {
    }
}

/// `217`: less than or equal.
#[derive(Debug)]
pub struct Lteq;

impl OpCodeNone for Lteq {
}

impl OpCode for Lteq {
    const VAL: u8 = 217;

    open spec fn byte() -> u8 {
        217
    }

    proof fn val_is_byte() {
    }
}

/// `218`: equality.
#[derive(Debug)]
pub struct Eq;

impl OpCodeNone for Eq {
}

impl OpCode for Eq {
    const VAL: u8 = 218;

    open spec fn byte() -> u8 {
        218
    }

    proof fn val_is_byte() {
    }
}

/// `219`: inequality.
#[derive(Debug)]
pub struct Neq;

impl OpCodeNone for Neq {
}

impl OpCode for Neq {
    const VAL: u8 = 219;

    open spec fn byte() -> u8 {
        219
    }

    proof fn val_is_byte() {
    }
}

/// `220`: conjunction.
#[derive(Debug)]
pub struct And;

impl OpCodeNone for And {
}

impl OpCode for And {
    const VAL: u8 = 220;

    open spec fn byte() -> u8 {
        220
    }

    proof fn val_is_byte() {
    }
}

/// `221`: disjunction.
#[derive(Debug)]
pub struct Or;

impl OpCodeNone for Or {
}

impl OpCode for Or {
    const VAL: u8 = 221;

    open spec fn byte() -> u8 {
        221
    }

    proof fn val_is_byte() {
    }
}

/// `222`: implication.
#[derive(Debug)]
pub struct Impl;

impl OpCodeNone for Impl {
}

impl OpCode for Impl {
    const VAL: u8 = 222;

    open spec fn byte() -> u8 {
        222
    }

    proof fn val_is_byte() {
    }
}

/// `223`: equivalence.
#[derive(Debug)]
pub struct Iff;

impl OpCodeNone for Iff {
}

impl OpCode for Iff {
    const VAL: u8 = 223;

    open spec fn byte() -> u8 {
        223
    }

    proof fn val_is_byte() {
    }
}

/// `226`: arithmetic negation.
#[derive(Debug)]
pub struct Negate;

impl OpCodeNone for Negate {
}

impl OpCode for Negate {
    const VAL: u8 = 226;

    open spec fn byte() -> u8 {
        226
    }

    proof fn val_is_byte() {
    }
}

/// `227`: reserved: dynamic variable.
#[derive(Debug)]
pub struct DynVar;

impl OpCodeNone for DynVar {
}

impl OpCode for DynVar {
    const VAL: u8 = 227;

    open spec fn byte() -> u8 {
        227
    }

    proof fn val_is_byte() {
    }
}

/// `228`: reserved: size.
#[derive(Debug)]
pub struct Size;

impl OpCodeNone for Size {
}

impl OpCode for Size {
    const VAL: u8 = 228;

    open spec fn byte() -> u8 {
        228
    }

    proof fn val_is_byte() {
    }
}

/// `229`: logical negation.
#[derive(Debug)]
pub struct Not;

impl OpCodeNone for Not {
}

impl OpCode for Not {
    const VAL: u8 = 229;

    open spec fn byte() -> u8 {
        229
    }

    proof fn val_is_byte() {
    }
}

} // verus!
