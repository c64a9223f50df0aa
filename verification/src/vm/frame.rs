//! Call frames.

use crate::buffer::frozen_bytes;
use crate::object::object::share;
use bytes::Bytes;
use std::rc::Rc;
use vstd::prelude::*;

verus! {

/// The record of one active call: the code that runs, the position at which
/// the caller goes on after the call, and the stack position of the call's
/// first parameter.
#[derive(Debug)]
pub struct Frame {
    ins: Rc<Bytes>,
    pub ins_ptr: u64,
    pub stack_ptr: usize,
}

/// What a frame is.
pub struct FrameView {
    pub code: Seq<u8>,
    pub return_cursor: nat,
    pub base_pointer: nat,
}

impl View for Frame {
    type V = FrameView;

    closed spec fn view(&self) -> FrameView {
        FrameView {
            code: frozen_bytes(*self.ins),
            return_cursor: self.ins_ptr as nat,
            base_pointer: self.stack_ptr as nat,
        }
    }
}

impl Frame {
    /// A frame for the code `ins`, to return to `ins_ptr`, with its first
    /// parameter at `stack_ptr`.
    pub fn new(ins: Rc<Bytes>, ins_ptr: u64, stack_ptr: usize) -> (frame: Frame)
        ensures
            frame@ == (FrameView {
                code: frozen_bytes(*ins),
                return_cursor: ins_ptr as nat,
                base_pointer: stack_ptr as nat,
            }),
    {
        Self { ins, ins_ptr, stack_ptr }
    }

    /// Another handle to the frame's code.
    pub fn instructions(&self) -> (ins: Rc<Bytes>)
        ensures
            frozen_bytes(*ins) == self@.code,
    {
        share(&self.ins)
    }

    /// The position at which the caller goes on.
    pub fn return_cursor(&self) -> (cursor: u64)
        ensures
            cursor == self@.return_cursor,
    {
        self.ins_ptr
    }

    /// The stack position of the call's first parameter.
    pub fn base_pointer(&self) -> (pointer: usize)
        ensures
            pointer == self@.base_pointer,
    {
        self.stack_ptr
    }

    /// The frame's code.
    pub(crate) fn code(&self) -> (ins: &Bytes)
        ensures
            frozen_bytes(*ins) == self@.code,
    {
        &*self.ins
    }
}

} // verus!
