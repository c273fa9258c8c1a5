//! The instruction set of the virtual machine.
use crate::arena::ArenaId;
use crate::text::{decimal, decimal_text, push_text};
use vstd::prelude::*;

verus! {

#[allow(inconsistent_fields)]
#[derive(Debug, Clone, Copy, PartialEq, Eq, Structural)]
pub enum Instruction {
    /// Push the constant with this id onto the value stack.
    PushPrimitive { id: ArenaId },
    /// Push the value of the newest binding of this symbol.
    PushVar { id: ArenaId },
    /// Pop a record, and push its field of this name.
    PushProp { id: ArenaId },
    /// Push this symbol onto the keyword stack.
    PushKeyword { id: ArenaId },
    /// Pop this many values, and push the list of them in the order they were pushed.
    MkList { size: u16 },
    /// Pop this many keywords and values, and push the record of them.
    MkRecord { size: u16 },
    /// Push a handle to the block of `skip` instructions that follows, and go on
    /// behind it.
    MkBlock { argc: u8, skip: u16 },
    /// Pop a value, and bind this symbol to it.
    Bind { id: ArenaId },
    /// Pop this many keywords and values, call the function that the first keyword
    /// names with them, and push what it returns.
    CallFunction { argc: u16 },
}

/// An instruction's name with one field: `Name { field: 1 }`.
pub open spec fn one_field(name: Seq<char>, field: Seq<char>, value: u64) -> Seq<char> {
    name + " { "@ + field + ": "@ + decimal_text(value) + " }"@
}

/// The text of an instruction: its name and its fields with their values.
pub open spec fn instruction_text(i: Instruction) -> Seq<char> {
    match i {
        Instruction::PushPrimitive { id } => one_field("PushPrimitive"@, "id"@, id as u64),
        Instruction::PushVar { id } => one_field("PushVar"@, "id"@, id as u64),
        Instruction::PushProp { id } => one_field("PushProp"@, "id"@, id as u64),
        Instruction::PushKeyword { id } => one_field("PushKeyword"@, "id"@, id as u64),
        Instruction::MkList { size } => one_field("MkList"@, "size"@, size as u64),
        Instruction::MkRecord { size } => one_field("MkRecord"@, "size"@, size as u64),
        Instruction::MkBlock { argc, skip } => "MkBlock { argc: "@ + decimal_text(argc as u64)
            + ", skip: "@ + decimal_text(skip as u64) + " }"@,
        Instruction::Bind { id } => one_field("Bind"@, "id"@, id as u64),
        Instruction::CallFunction { argc } => one_field("CallFunction"@, "argc"@, argc as u64),
    }
}

fn with_one_field(name: &str, field: &str, value: u64) -> (text: String)
    ensures
        text@ == one_field(name@, field@, value),
{
    let mut text = String::new();
    push_text(&mut text, name);
    push_text(&mut text, " { ");
    push_text(&mut text, field);
    push_text(&mut text, ": ");
    let number = decimal(value);
    push_text(&mut text, number.as_str());
    push_text(&mut text, " }");
    assert(text@ =~= one_field(name@, field@, value));
    text
}

impl Instruction {
    /// The text of the instruction: see `instruction_text`.
    pub fn to_text(&self) -> (text: String)
        ensures
            text@ == instruction_text(*self),
    {
        match *self {
            Instruction::PushPrimitive { id } => with_one_field("PushPrimitive", "id", id as u64),
            Instruction::PushVar { id } => with_one_field("PushVar", "id", id as u64),
            Instruction::PushProp { id } => with_one_field("PushProp", "id", id as u64),
            Instruction::PushKeyword { id } => with_one_field("PushKeyword", "id", id as u64),
            Instruction::MkList { size } => with_one_field("MkList", "size", size as u64),
            Instruction::MkRecord { size } => with_one_field("MkRecord", "size", size as u64),
            Instruction::MkBlock { argc, skip } => {
                let mut text = String::new();
                push_text(&mut text, "MkBlock { argc: ");
                let first = decimal(argc as u64);
                push_text(&mut text, first.as_str());
                push_text(&mut text, ", skip: ");
                let second = decimal(skip as u64);
                push_text(&mut text, second.as_str());
                push_text(&mut text, " }");
                assert(text@ =~= instruction_text(*self));
                text
            },
            Instruction::Bind { id } => with_one_field("Bind", "id", id as u64),
            Instruction::CallFunction { argc } => with_one_field("CallFunction", "argc", argc as u64),
        }
    }
}

} // verus!
