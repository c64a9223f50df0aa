use ysetl::code::code::{
    Add, Call, Const, Jump, Null, OpCode, OpCodeMake, OpCodeMakeWithU16, Pop, Return, ToTupleRn,
};
use ysetl::code::debug::lookup;

#[test]
fn code_op_const() {
    assert_eq!(Const.make(5)[..], [Const::VAL, 0, 5]);
    assert_eq!(Const.make(258)[..], [Const::VAL, 1, 2]);
}

#[test]
fn op_add() {
    assert_eq!(Add.make()[..], [Add::VAL]);
}

#[test]
fn opcode_bytes_are_canonical() {
    assert_eq!(Const::VAL, 0);
    assert_eq!(Null::VAL, 1);
    assert_eq!(ToTupleRn::VAL, 8);
    assert_eq!(Pop::VAL, 20);
    assert_eq!(Jump::VAL, 23);
    assert_eq!(Call::VAL, 103);
    assert_eq!(Add::VAL, 208);
    assert_ne!(Return::VAL, Call::VAL);
}

#[test]
fn operands_are_big_endian() {
    assert_eq!(Jump.make(0xffff)[..], [23, 0xff, 0xff]);
    assert_eq!(Jump.make(0x000a)[..], [23, 0x00, 0x0a]);
    assert_eq!(Call.make(0x1234)[..], [103, 0x12, 0x34]);
}

#[test]
fn lookup_gives_width_and_name() {
    assert_eq!(lookup(Const::VAL), Some((2, "Const")));
    assert_eq!(lookup(Add::VAL), Some((0, "Add")));
    assert_eq!(lookup(Return::VAL), Some((0, "Return")));
    assert_eq!(lookup(Call::VAL), Some((2, "Call")));
    assert_eq!(lookup(13), None);
    assert_eq!(lookup(255), None);
}
