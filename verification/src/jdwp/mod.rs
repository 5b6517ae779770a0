//! The Java debug wire protocol: what the JVM and the debugger say to each other.
//!
//! All object, class, method and frame numbers are taken to be eight bytes wide, as on every
//! 64-bit JVM.

use vstd::prelude::*;
use crate::jdwp::read::{
    get_id, get_string, get_u32, get_u64, get_u8, read_id, read_string, read_u32, read_u64, read_u8,
    Item, JdwpError,
};

pub mod client;
pub mod encode;
pub mod event;
pub mod read;
pub mod value;

verus! {

pub const EVENT_STEP: u8 = 1;

pub const EVENT_BREAKPOINT: u8 = 2;

pub const EVENT_EXCEPTION: u8 = 4;

pub const EVENT_CLASS_PREPARE: u8 = 8;

pub const EVENT_VM_START: u8 = 90;

pub const EVENT_VM_DEATH: u8 = 99;

pub const STEP_SIZE_LINE: u32 = 1;

pub const STEP_DEPTH_INTO: u32 = 0;

pub const STEP_DEPTH_OVER: u32 = 1;

pub const STEP_DEPTH_OUT: u32 = 2;

/// A place in the code of a method.
#[derive(Debug, Clone, Copy, PartialEq, Eq, Structural)]
pub struct Location {
    pub type_tag: u8,
    pub class_id: u64,
    pub method_id: u64,
    pub index: u64,
}

/// A class that the JVM has loaded.
#[derive(Debug, PartialEq, Eq)]
pub struct ClassInfo {
    pub ref_type_tag: u8,
    pub ref_type_id: u64,
    pub signature: String,
    pub status: u32,
}

/// A method of a class.
#[derive(Debug, PartialEq, Eq)]
pub struct MethodInfo {
    pub method_id: u64,
    pub name: String,
    pub signature: String,
    pub mod_bits: u32,
}

/// The first code index of a source line.
#[derive(Debug, Clone, Copy, PartialEq, Eq, Structural)]
pub struct LineTableEntry {
    pub line_code_index: u64,
    pub line_number: u32,
}

/// Which code of a method belongs to which source line.
#[derive(Debug, PartialEq, Eq)]
pub struct LineTable {
    pub start: u64,
    pub end: u64,
    pub lines: Vec<LineTableEntry>,
}

/// A local variable: it is in scope for `length` code indices from `code_index` on.
#[derive(Debug, PartialEq, Eq)]
pub struct VariableInfo {
    pub code_index: u64,
    pub name: String,
    pub signature: String,
    pub length: u32,
    pub slot: u32,
}

/// A call on the stack of a thread.
#[derive(Debug, Clone, Copy, PartialEq, Eq, Structural)]
pub struct FrameInfo {
    pub frame_id: u64,
    pub location: Location,
}

/// A thread of the JVM.
#[derive(Debug, Clone, Copy, PartialEq, Eq, Structural)]
pub struct ThreadId {
    pub id: u64,
}

pub struct ClassInfoView {
    pub ref_type_tag: u8,
    pub ref_type_id: u64,
    pub signature: Seq<char>,
    pub status: u32,
}

pub struct MethodInfoView {
    pub method_id: u64,
    pub name: Seq<char>,
    pub signature: Seq<char>,
    pub mod_bits: u32,
}

pub struct LineTableView {
    pub start: u64,
    pub end: u64,
    pub lines: Seq<LineTableEntry>,
}

pub struct VariableInfoView {
    pub code_index: u64,
    pub name: Seq<char>,
    pub signature: Seq<char>,
    pub length: u32,
    pub slot: u32,
}

impl View for ClassInfo {
    type V = ClassInfoView;

    open spec fn view(&self) -> ClassInfoView {
        ClassInfoView {
            ref_type_tag: self.ref_type_tag,
            ref_type_id: self.ref_type_id,
            signature: self.signature@,
            status: self.status,
        }
    }
}

impl View for MethodInfo {
    type V = MethodInfoView;

    open spec fn view(&self) -> MethodInfoView {
        MethodInfoView {
            method_id: self.method_id,
            name: self.name@,
            signature: self.signature@,
            mod_bits: self.mod_bits,
        }
    }
}

impl View for LineTableEntry {
    type V = LineTableEntry;

    open spec fn view(&self) -> LineTableEntry {
        *self
    }
}

impl View for LineTable {
    type V = LineTableView;

    open spec fn view(&self) -> LineTableView {
        LineTableView { start: self.start, end: self.end, lines: self.lines@ }
    }
}

impl View for VariableInfo {
    type V = VariableInfoView;

    open spec fn view(&self) -> VariableInfoView {
        VariableInfoView {
            code_index: self.code_index,
            name: self.name@,
            signature: self.signature@,
            length: self.length,
            slot: self.slot,
        }
    }
}

impl View for FrameInfo {
    type V = FrameInfo;

    open spec fn view(&self) -> FrameInfo {
        *self
    }
}

impl View for ThreadId {
    type V = u64;

    open spec fn view(&self) -> u64 {
        self.id
    }
}

impl Clone for ClassInfo {
    fn clone(&self) -> (r: ClassInfo)
        ensures
            r@ == self@,
    {
        ClassInfo { ref_type_tag: self.ref_type_tag, ref_type_id: self.ref_type_id, signature: self.signature.clone(), status: self.status }
    }
}

impl Clone for MethodInfo {
    fn clone(&self) -> (r: MethodInfo)
        ensures
            r@ == self@,
    {
        MethodInfo { method_id: self.method_id, name: self.name.clone(), signature: self.signature.clone(), mod_bits: self.mod_bits }
    }
}

impl Clone for LineTable {
    fn clone(&self) -> (r: LineTable)
        ensures
            r@ == self@,
    {
        LineTable { start: self.start, end: self.end, lines: self.lines.clone() }
    }
}

impl Clone for VariableInfo {
    fn clone(&self) -> (r: VariableInfo)
        ensures
            r@ == self@,
    {
        VariableInfo { code_index: self.code_index, name: self.name.clone(), signature: self.signature.clone(), length: self.length, slot: self.slot }
    }
}

/// Four numbers: the kind of type, the class, the method, and the code index in it.
pub open spec fn get_location(d: Seq<u8>, p: int) -> Result<(Location, int), JdwpError> {
    match get_u8(d, p) {
        Err(e) => Err(e),
        Ok((type_tag, p)) => match get_id(d, p) {
            Err(e) => Err(e),
            Ok((class_id, p)) => match get_id(d, p) {
                Err(e) => Err(e),
                Ok((method_id, p)) => match get_u64(d, p) {
                    Err(e) => Err(e),
                    Ok((index, p)) => Ok((Location { type_tag, class_id, method_id, index }, p)),
                },
            },
        },
    }
}

pub fn read_location(data: &[u8], pos: &mut usize) -> (r: Result<Location, JdwpError>)
    ensures
        match get_location(data@, *old(pos) as int) {
            Ok((v, q)) => r == Ok::<Location, JdwpError>(v) && *final(pos) == q,
            Err(e) => r == Err::<Location, JdwpError>(e),
        },
{
    let type_tag = read_u8(data, pos)?;
    let class_id = read_id(data, pos)?;
    let method_id = read_id(data, pos)?;
    let index = read_u64(data, pos)?;
    Ok(Location { type_tag, class_id, method_id, index })
}

impl Item for ClassInfo {
    /// A class: its kind, its number, its signature, its generic signature, its status.
    open spec fn get(d: Seq<u8>, p: int) -> Result<(ClassInfoView, int), JdwpError> {
        match get_u8(d, p) {
            Err(e) => Err(e),
            Ok((ref_type_tag, p)) => match get_id(d, p) {
                Err(e) => Err(e),
                Ok((ref_type_id, p)) => match get_string(d, p) {
                    Err(e) => Err(e),
                    Ok((signature, p)) => match get_string(d, p) {
                        Err(e) => Err(e),
                        Ok((_, p)) => match get_u32(d, p) {
                            Err(e) => Err(e),
                            Ok((status, p)) => Ok(
                                (
                                    ClassInfoView { ref_type_tag, ref_type_id, signature, status },
                                    p,
                                ),
                            ),
                        },
                    },
                },
            },
        }
    }

    fn read(data: &[u8], pos: &mut usize) -> (r: Result<ClassInfo, JdwpError>) {
        let ref_type_tag = read_u8(data, pos)?;
        let ref_type_id = read_id(data, pos)?;
        let signature = read_string(data, pos)?;
        let _generic = read_string(data, pos)?;
        let status = read_u32(data, pos)?;
        Ok(ClassInfo { ref_type_tag, ref_type_id, signature, status })
    }
}

impl Item for MethodInfo {
    /// A method: its number, its name, its signature, its generic signature, its modifiers.
    open spec fn get(d: Seq<u8>, p: int) -> Result<(MethodInfoView, int), JdwpError> {
        match get_id(d, p) {
            Err(e) => Err(e),
            Ok((method_id, p)) => match get_string(d, p) {
                Err(e) => Err(e),
                Ok((name, p)) => match get_string(d, p) {
                    Err(e) => Err(e),
                    Ok((signature, p)) => match get_string(d, p) {
                        Err(e) => Err(e),
                        Ok((_, p)) => match get_u32(d, p) {
                            Err(e) => Err(e),
                            Ok((mod_bits, p)) => Ok(
                                (MethodInfoView { method_id, name, signature, mod_bits }, p),
                            ),
                        },
                    },
                },
            },
        }
    }

    fn read(data: &[u8], pos: &mut usize) -> (r: Result<MethodInfo, JdwpError>) {
        let method_id = read_id(data, pos)?;
        let name = read_string(data, pos)?;
        let signature = read_string(data, pos)?;
        let _generic = read_string(data, pos)?;
        let mod_bits = read_u32(data, pos)?;
        Ok(MethodInfo { method_id, name, signature, mod_bits })
    }
}

impl Item for LineTableEntry {
    /// A line: its first code index, and its number.
    open spec fn get(d: Seq<u8>, p: int) -> Result<(LineTableEntry, int), JdwpError> {
        match get_u64(d, p) {
            Err(e) => Err(e),
            Ok((line_code_index, p)) => match get_u32(d, p) {
                Err(e) => Err(e),
                Ok((line_number, p)) => Ok((LineTableEntry { line_code_index, line_number }, p)),
            },
        }
    }

    fn read(data: &[u8], pos: &mut usize) -> (r: Result<LineTableEntry, JdwpError>) {
        let line_code_index = read_u64(data, pos)?;
        let line_number = read_u32(data, pos)?;
        Ok(LineTableEntry { line_code_index, line_number })
    }
}

impl Item for VariableInfo {
    /// A variable: where its scope starts, its name, its signature, its generic signature, how
    /// long its scope is, and its slot.
    open spec fn get(d: Seq<u8>, p: int) -> Result<(VariableInfoView, int), JdwpError> {
        match get_u64(d, p) {
            Err(e) => Err(e),
            Ok((code_index, p)) => match get_string(d, p) {
                Err(e) => Err(e),
                Ok((name, p)) => match get_string(d, p) {
                    Err(e) => Err(e),
                    Ok((signature, p)) => match get_string(d, p) {
                        Err(e) => Err(e),
                        Ok((_, p)) => match get_u32(d, p) {
                            Err(e) => Err(e),
                            Ok((length, p)) => match get_u32(d, p) {
                                Err(e) => Err(e),
                                Ok((slot, p)) => Ok(
                                    (
                                        VariableInfoView {
                                            code_index,
                                            name,
                                            signature,
                                            length,
                                            slot,
                                        },
                                        p,
                                    ),
                                ),
                            },
                        },
                    },
                },
            },
        }
    }

    fn read(data: &[u8], pos: &mut usize) -> (r: Result<VariableInfo, JdwpError>) {
        let code_index = read_u64(data, pos)?;
        let name = read_string(data, pos)?;
        let signature = read_string(data, pos)?;
        let _generic = read_string(data, pos)?;
        let length = read_u32(data, pos)?;
        let slot = read_u32(data, pos)?;
        Ok(VariableInfo { code_index, name, signature, length, slot })
    }
}

impl Item for FrameInfo {
    /// A frame: its number, and where it stands.
    open spec fn get(d: Seq<u8>, p: int) -> Result<(FrameInfo, int), JdwpError> {
        match get_id(d, p) {
            Err(e) => Err(e),
            Ok((frame_id, p)) => match get_location(d, p) {
                Err(e) => Err(e),
                Ok((location, p)) => Ok((FrameInfo { frame_id, location }, p)),
            },
        }
    }

    fn read(data: &[u8], pos: &mut usize) -> (r: Result<FrameInfo, JdwpError>) {
        let frame_id = read_id(data, pos)?;
        let location = read_location(data, pos)?;
        Ok(FrameInfo { frame_id, location })
    }
}

impl Item for ThreadId {
    open spec fn get(d: Seq<u8>, p: int) -> Result<(u64, int), JdwpError> {
        get_id(d, p)
    }

    fn read(data: &[u8], pos: &mut usize) -> (r: Result<ThreadId, JdwpError>) {
        let id = read_id(data, pos)?;
        Ok(ThreadId { id })
    }
}

} // verus!
