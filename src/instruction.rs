//! The instruction set: one opcode byte, then little-endian operands.
use vstd::prelude::*;

verus! {

#[derive(Debug, Clone, Copy, PartialEq, Eq, Structural)]
pub enum Instruction {
    Negate,
    Not,
    Add,
    Mul,
    Sub,
    Div,
    Modulo,
    Concat,
    LessThan,
    GreaterThan,
    LessThanOrEqual,
    GreaterThanOrEqual,
    Equal,
    CreateList,
    CreateListWithCap,
    CreateListWithCapW,
    ListPush,
    ListGetIndex,
    LoadTrue,
    LoadFalse,
    LoadNil,
    LoadStringLiteral,
    LoadLitNum,
    LoadConstNum,
    LoadConstNumW,
    LoadConstNumWW,
    SetLocal,
    SetLocalW,
    GetLocal,
    GetLocalW,
    LoadFunction,
    Invoke,
    Return,
    LoadReturnAdress,
    Dup,
    Pop,
    Print,
    Jump,
    JumpIfFalse,
}

/// The byte that encodes each instruction: its place in the declaration.
pub open spec fn op_byte(op: Instruction) -> u8 {
    match op {
        Instruction::Negate => 0u8,
        Instruction::Not => 1u8,
        Instruction::Add => 2u8,
        Instruction::Mul => 3u8,
        Instruction::Sub => 4u8,
        Instruction::Div => 5u8,
        Instruction::Modulo => 6u8,
        Instruction::Concat => 7u8,
        Instruction::LessThan => 8u8,
        Instruction::GreaterThan => 9u8,
        Instruction::LessThanOrEqual => 10u8,
        Instruction::GreaterThanOrEqual => 11u8,
        Instruction::Equal => 12u8,
        Instruction::CreateList => 13u8,
        Instruction::CreateListWithCap => 14u8,
        Instruction::CreateListWithCapW => 15u8,
        Instruction::ListPush => 16u8,
        Instruction::ListGetIndex => 17u8,
        Instruction::LoadTrue => 18u8,
        Instruction::LoadFalse => 19u8,
        Instruction::LoadNil => 20u8,
        Instruction::LoadStringLiteral => 21u8,
        Instruction::LoadLitNum => 22u8,
        Instruction::LoadConstNum => 23u8,
        Instruction::LoadConstNumW => 24u8,
        Instruction::LoadConstNumWW => 25u8,
        Instruction::SetLocal => 26u8,
        Instruction::SetLocalW => 27u8,
        Instruction::GetLocal => 28u8,
        Instruction::GetLocalW => 29u8,
        Instruction::LoadFunction => 30u8,
        Instruction::Invoke => 31u8,
        Instruction::Return => 32u8,
        Instruction::LoadReturnAdress => 33u8,
        Instruction::Dup => 34u8,
        Instruction::Pop => 35u8,
        Instruction::Print => 36u8,
        Instruction::Jump => 37u8,
        Instruction::JumpIfFalse => 38u8,
    }
}

/// How many bytes of operands follow the opcode.
pub open spec fn operand_width(op: Instruction) -> nat {
    match op {
        Instruction::CreateListWithCap => 1,
        Instruction::CreateListWithCapW => 2,
        Instruction::LoadStringLiteral => 8,
        Instruction::LoadLitNum => 1,
        Instruction::LoadConstNum => 1,
        Instruction::LoadConstNumW => 2,
        Instruction::LoadConstNumWW => 4,
        Instruction::SetLocal => 1,
        Instruction::SetLocalW => 2,
        Instruction::GetLocal => 1,
        Instruction::GetLocalW => 2,
        Instruction::LoadFunction => 4,
        Instruction::Invoke => 1,
        Instruction::LoadReturnAdress => 8,
        Instruction::Jump => 4,
        Instruction::JumpIfFalse => 4,
        _ => 0,
    }
}

/// What executing the instruction does to the height of the value stack.
/// A call and a return depend on the callee and are counted as zero.
pub open spec fn stack_effect(op: Instruction) -> int {
    match op {
        Instruction::Negate | Instruction::Not | Instruction::Invoke | Instruction::Return | Instruction::Jump => 0,
        Instruction::Add | Instruction::Mul | Instruction::Sub | Instruction::Div | Instruction::Modulo | Instruction::Concat | Instruction::LessThan | Instruction::GreaterThan | Instruction::LessThanOrEqual | Instruction::GreaterThanOrEqual | Instruction::Equal | Instruction::ListPush | Instruction::ListGetIndex | Instruction::SetLocal | Instruction::SetLocalW | Instruction::Pop | Instruction::Print | Instruction::JumpIfFalse => -1,
        Instruction::CreateList | Instruction::CreateListWithCap | Instruction::CreateListWithCapW | Instruction::LoadTrue | Instruction::LoadFalse | Instruction::LoadNil | Instruction::LoadStringLiteral | Instruction::LoadLitNum | Instruction::LoadConstNum | Instruction::LoadConstNumW | Instruction::LoadConstNumWW | Instruction::GetLocal | Instruction::GetLocalW | Instruction::LoadFunction | Instruction::LoadReturnAdress | Instruction::Dup => 1,
    }
}

impl Instruction {
    pub fn opcode(self) -> (r: u8)
        ensures
            r == op_byte(self),
    {
        match self {
            Instruction::Negate => 0,
            Instruction::Not => 1,
            Instruction::Add => 2,
            Instruction::Mul => 3,
            Instruction::Sub => 4,
            Instruction::Div => 5,
            Instruction::Modulo => 6,
            Instruction::Concat => 7,
            Instruction::LessThan => 8,
            Instruction::GreaterThan => 9,
            Instruction::LessThanOrEqual => 10,
            Instruction::GreaterThanOrEqual => 11,
            Instruction::Equal => 12,
            Instruction::CreateList => 13,
            Instruction::CreateListWithCap => 14,
            Instruction::CreateListWithCapW => 15,
            Instruction::ListPush => 16,
            Instruction::ListGetIndex => 17,
            Instruction::LoadTrue => 18,
            Instruction::LoadFalse => 19,
            Instruction::LoadNil => 20,
            Instruction::LoadStringLiteral => 21,
            Instruction::LoadLitNum => 22,
            Instruction::LoadConstNum => 23,
            Instruction::LoadConstNumW => 24,
            Instruction::LoadConstNumWW => 25,
            Instruction::SetLocal => 26,
            Instruction::SetLocalW => 27,
            Instruction::GetLocal => 28,
            Instruction::GetLocalW => 29,
            Instruction::LoadFunction => 30,
            Instruction::Invoke => 31,
            Instruction::Return => 32,
            Instruction::LoadReturnAdress => 33,
            Instruction::Dup => 34,
            Instruction::Pop => 35,
            Instruction::Print => 36,
            Instruction::Jump => 37,
            Instruction::JumpIfFalse => 38,
        }
    }

    /// The instruction that a byte encodes, if any.
    pub fn from_byte(b: u8) -> (r: Option<Instruction>)
        ensures
            r matches Some(op) ==> op_byte(op) == b,
            r is None ==> forall|op: Instruction| op_byte(op) != b,
    {
        match b {
            0 => Some(Instruction::Negate),
            1 => Some(Instruction::Not),
            2 => Some(Instruction::Add),
            3 => Some(Instruction::Mul),
            4 => Some(Instruction::Sub),
            5 => Some(Instruction::Div),
            6 => Some(Instruction::Modulo),
            7 => Some(Instruction::Concat),
            8 => Some(Instruction::LessThan),
            9 => Some(Instruction::GreaterThan),
            10 => Some(Instruction::LessThanOrEqual),
            11 => Some(Instruction::GreaterThanOrEqual),
            12 => Some(Instruction::Equal),
            13 => Some(Instruction::CreateList),
            14 => Some(Instruction::CreateListWithCap),
            15 => Some(Instruction::CreateListWithCapW),
            16 => Some(Instruction::ListPush),
            17 => Some(Instruction::ListGetIndex),
            18 => Some(Instruction::LoadTrue),
            19 => Some(Instruction::LoadFalse),
            20 => Some(Instruction::LoadNil),
            21 => Some(Instruction::LoadStringLiteral),
            22 => Some(Instruction::LoadLitNum),
            23 => Some(Instruction::LoadConstNum),
            24 => Some(Instruction::LoadConstNumW),
            25 => Some(Instruction::LoadConstNumWW),
            26 => Some(Instruction::SetLocal),
            27 => Some(Instruction::SetLocalW),
            28 => Some(Instruction::GetLocal),
            29 => Some(Instruction::GetLocalW),
            30 => Some(Instruction::LoadFunction),
            31 => Some(Instruction::Invoke),
            32 => Some(Instruction::Return),
            33 => Some(Instruction::LoadReturnAdress),
            34 => Some(Instruction::Dup),
            35 => Some(Instruction::Pop),
            36 => Some(Instruction::Print),
            37 => Some(Instruction::Jump),
            38 => Some(Instruction::JumpIfFalse),
            _ => None,
        }
    }
}

} // verus!
