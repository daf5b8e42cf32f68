//! The instruction set, the instruction encoding, the compiled chunk, and the framed
//! serialization of a chunk.
use vstd::prelude::*;
use vstd::string::StringExecFns;
use vstd::utf8::{decode_utf8, encode_utf8, valid_utf8};
use crate::value::{texts_view, Value};

verus! {

broadcast use vstd::std_specs::vec::group_vec_axioms, vstd::seq::group_seq_axioms;

/// Operation codes of the instruction set. Each has a fixed byte on the wire.
#[derive(Debug, Clone, Copy, PartialEq, Eq, Structural)]
pub enum OpCode {
    Nop,
    LoadConst,
    LoadName,
    StoreName,
    LoadGlobal,
    StoreGlobal,
    LoadLocal,
    StoreLocal,
    Add,
    Sub,
    Mul,
    Div,
    FloorDiv,
    Mod,
    Pow,
    Neg,
    BitAnd,
    BitOr,
    BitXor,
    BitNot,
    Shl,
    Shr,
    Eq,
    Ne,
    Lt,
    Le,
    Gt,
    Ge,
    And,
    Or,
    Not,
    Jump,
    JumpIfTrue,
    JumpIfFalse,
    Call,
    Return,
    BuildList,
    BuildDict,
    BuildTuple,
    BuildSet,
    GetIndex,
    SetIndex,
    GetAttr,
    SetAttr,
    GetSlice,
    Pop,
    Dup,
    Rot2,
    Rot3,
    MakeFunction,
    MakeClosure,
    ForIter,
    GetIter,
    Print,
    Input,
    Contains,
    NotContains,
    Len,
    Halt,
}

/// The byte that encodes an operation code.
pub open spec fn byte_of(op: OpCode) -> u8 {
    match op {
        OpCode::Nop => 0,
        OpCode::LoadConst => 1,
        OpCode::LoadName => 2,
        OpCode::StoreName => 3,
        OpCode::LoadGlobal => 4,
        OpCode::StoreGlobal => 5,
        OpCode::LoadLocal => 6,
        OpCode::StoreLocal => 7,
        OpCode::Add => 10,
        OpCode::Sub => 11,
        OpCode::Mul => 12,
        OpCode::Div => 13,
        OpCode::FloorDiv => 14,
        OpCode::Mod => 15,
        OpCode::Pow => 16,
        OpCode::Neg => 17,
        OpCode::BitAnd => 20,
        OpCode::BitOr => 21,
        OpCode::BitXor => 22,
        OpCode::BitNot => 23,
        OpCode::Shl => 24,
        OpCode::Shr => 25,
        OpCode::Eq => 30,
        OpCode::Ne => 31,
        OpCode::Lt => 32,
        OpCode::Le => 33,
        OpCode::Gt => 34,
        OpCode::Ge => 35,
        OpCode::And => 40,
        OpCode::Or => 41,
        OpCode::Not => 42,
        OpCode::Jump => 50,
        OpCode::JumpIfTrue => 51,
        OpCode::JumpIfFalse => 52,
        OpCode::Call => 60,
        OpCode::Return => 61,
        OpCode::BuildList => 70,
        OpCode::BuildDict => 71,
        OpCode::BuildTuple => 72,
        OpCode::BuildSet => 73,
        OpCode::GetIndex => 80,
        OpCode::SetIndex => 81,
        OpCode::GetAttr => 82,
        OpCode::SetAttr => 83,
        OpCode::GetSlice => 84,
        OpCode::Pop => 90,
        OpCode::Dup => 91,
        OpCode::Rot2 => 92,
        OpCode::Rot3 => 93,
        OpCode::MakeFunction => 100,
        OpCode::MakeClosure => 101,
        OpCode::ForIter => 110,
        OpCode::GetIter => 111,
        OpCode::Print => 120,
        OpCode::Input => 121,
        OpCode::Contains => 130,
        OpCode::NotContains => 131,
        OpCode::Len => 132,
        OpCode::Halt => 255,
    }
}

/// The operation code a byte decodes to; unknown bytes decode to `Nop`.
#[verifier::opaque]
pub open spec fn opcode_of(b: u8) -> OpCode {
    if b == 1 {
        OpCode::LoadConst
    } else if b == 2 {
        OpCode::LoadName
    } else if b == 3 {
        OpCode::StoreName
    } else if b == 4 {
        OpCode::LoadGlobal
    } else if b == 5 {
        OpCode::StoreGlobal
    } else if b == 6 {
        OpCode::LoadLocal
    } else if b == 7 {
        OpCode::StoreLocal
    } else if b == 10 {
        OpCode::Add
    } else if b == 11 {
        OpCode::Sub
    } else if b == 12 {
        OpCode::Mul
    } else if b == 13 {
        OpCode::Div
    } else if b == 14 {
        OpCode::FloorDiv
    } else if b == 15 {
        OpCode::Mod
    } else if b == 16 {
        OpCode::Pow
    } else if b == 17 {
        OpCode::Neg
    } else if b == 20 {
        OpCode::BitAnd
    } else if b == 21 {
        OpCode::BitOr
    } else if b == 22 {
        OpCode::BitXor
    } else if b == 23 {
        OpCode::BitNot
    } else if b == 24 {
        OpCode::Shl
    } else if b == 25 {
        OpCode::Shr
    } else if b == 30 {
        OpCode::Eq
    } else if b == 31 {
        OpCode::Ne
    } else if b == 32 {
        OpCode::Lt
    } else if b == 33 {
        OpCode::Le
    } else if b == 34 {
        OpCode::Gt
    } else if b == 35 {
        OpCode::Ge
    } else if b == 40 {
        OpCode::And
    } else if b == 41 {
        OpCode::Or
    } else if b == 42 {
        OpCode::Not
    } else if b == 50 {
        OpCode::Jump
    } else if b == 51 {
        OpCode::JumpIfTrue
    } else if b == 52 {
        OpCode::JumpIfFalse
    } else if b == 60 {
        OpCode::Call
    } else if b == 61 {
        OpCode::Return
    } else if b == 70 {
        OpCode::BuildList
    } else if b == 71 {
        OpCode::BuildDict
    } else if b == 72 {
        OpCode::BuildTuple
    } else if b == 73 {
        OpCode::BuildSet
    } else if b == 80 {
        OpCode::GetIndex
    } else if b == 81 {
        OpCode::SetIndex
    } else if b == 82 {
        OpCode::GetAttr
    } else if b == 83 {
        OpCode::SetAttr
    } else if b == 84 {
        OpCode::GetSlice
    } else if b == 90 {
        OpCode::Pop
    } else if b == 91 {
        OpCode::Dup
    } else if b == 92 {
        OpCode::Rot2
    } else if b == 93 {
        OpCode::Rot3
    } else if b == 100 {
        OpCode::MakeFunction
    } else if b == 101 {
        OpCode::MakeClosure
    } else if b == 110 {
        OpCode::ForIter
    } else if b == 111 {
        OpCode::GetIter
    } else if b == 120 {
        OpCode::Print
    } else if b == 121 {
        OpCode::Input
    } else if b == 130 {
        OpCode::Contains
    } else if b == 131 {
        OpCode::NotContains
    } else if b == 132 {
        OpCode::Len
    } else if b == 255 {
        OpCode::Halt
    } else {
        OpCode::Nop
    }
}

/// Operation codes followed by a four-byte operand.
pub open spec fn takes_operand(op: OpCode) -> bool {
    match op {
        OpCode::LoadConst | OpCode::LoadName | OpCode::StoreName | OpCode::LoadGlobal | OpCode::StoreGlobal | OpCode::LoadLocal | OpCode::StoreLocal | OpCode::Jump | OpCode::JumpIfTrue | OpCode::JumpIfFalse | OpCode::Call | OpCode::BuildList | OpCode::BuildDict | OpCode::BuildTuple | OpCode::BuildSet | OpCode::MakeFunction | OpCode::MakeClosure | OpCode::GetAttr | OpCode::SetAttr => true,
        _ => false,
    }
}

impl OpCode {
    pub fn from_byte(b: u8) -> (r: OpCode)
        ensures
            r == opcode_of(b),
    {
        reveal(opcode_of);
        match b {
            1 => OpCode::LoadConst,
            2 => OpCode::LoadName,
            3 => OpCode::StoreName,
            4 => OpCode::LoadGlobal,
            5 => OpCode::StoreGlobal,
            6 => OpCode::LoadLocal,
            7 => OpCode::StoreLocal,
            10 => OpCode::Add,
            11 => OpCode::Sub,
            12 => OpCode::Mul,
            13 => OpCode::Div,
            14 => OpCode::FloorDiv,
            15 => OpCode::Mod,
            16 => OpCode::Pow,
            17 => OpCode::Neg,
            20 => OpCode::BitAnd,
            21 => OpCode::BitOr,
            22 => OpCode::BitXor,
            23 => OpCode::BitNot,
            24 => OpCode::Shl,
            25 => OpCode::Shr,
            30 => OpCode::Eq,
            31 => OpCode::Ne,
            32 => OpCode::Lt,
            33 => OpCode::Le,
            34 => OpCode::Gt,
            35 => OpCode::Ge,
            40 => OpCode::And,
            41 => OpCode::Or,
            42 => OpCode::Not,
            50 => OpCode::Jump,
            51 => OpCode::JumpIfTrue,
            52 => OpCode::JumpIfFalse,
            60 => OpCode::Call,
            61 => OpCode::Return,
            70 => OpCode::BuildList,
            71 => OpCode::BuildDict,
            72 => OpCode::BuildTuple,
            73 => OpCode::BuildSet,
            80 => OpCode::GetIndex,
            81 => OpCode::SetIndex,
            82 => OpCode::GetAttr,
            83 => OpCode::SetAttr,
            84 => OpCode::GetSlice,
            90 => OpCode::Pop,
            91 => OpCode::Dup,
            92 => OpCode::Rot2,
            93 => OpCode::Rot3,
            100 => OpCode::MakeFunction,
            101 => OpCode::MakeClosure,
            110 => OpCode::ForIter,
            111 => OpCode::GetIter,
            120 => OpCode::Print,
            121 => OpCode::Input,
            130 => OpCode::Contains,
            131 => OpCode::NotContains,
            132 => OpCode::Len,
            255 => OpCode::Halt,
            _ => OpCode::Nop,
        }
    }

    pub fn to_byte(self) -> (r: u8)
        ensures
            r == byte_of(self),
    {
        match self {
            OpCode::Nop => 0,
            OpCode::LoadConst => 1,
            OpCode::LoadName => 2,
            OpCode::StoreName => 3,
            OpCode::LoadGlobal => 4,
            OpCode::StoreGlobal => 5,
            OpCode::LoadLocal => 6,
            OpCode::StoreLocal => 7,
            OpCode::Add => 10,
            OpCode::Sub => 11,
            OpCode::Mul => 12,
            OpCode::Div => 13,
            OpCode::FloorDiv => 14,
            OpCode::Mod => 15,
            OpCode::Pow => 16,
            OpCode::Neg => 17,
            OpCode::BitAnd => 20,
            OpCode::BitOr => 21,
            OpCode::BitXor => 22,
            OpCode::BitNot => 23,
            OpCode::Shl => 24,
            OpCode::Shr => 25,
            OpCode::Eq => 30,
            OpCode::Ne => 31,
            OpCode::Lt => 32,
            OpCode::Le => 33,
            OpCode::Gt => 34,
            OpCode::Ge => 35,
            OpCode::And => 40,
            OpCode::Or => 41,
            OpCode::Not => 42,
            OpCode::Jump => 50,
            OpCode::JumpIfTrue => 51,
            OpCode::JumpIfFalse => 52,
            OpCode::Call => 60,
            OpCode::Return => 61,
            OpCode::BuildList => 70,
            OpCode::BuildDict => 71,
            OpCode::BuildTuple => 72,
            OpCode::BuildSet => 73,
            OpCode::GetIndex => 80,
            OpCode::SetIndex => 81,
            OpCode::GetAttr => 82,
            OpCode::SetAttr => 83,
            OpCode::GetSlice => 84,
            OpCode::Pop => 90,
            OpCode::Dup => 91,
            OpCode::Rot2 => 92,
            OpCode::Rot3 => 93,
            OpCode::MakeFunction => 100,
            OpCode::MakeClosure => 101,
            OpCode::ForIter => 110,
            OpCode::GetIter => 111,
            OpCode::Print => 120,
            OpCode::Input => 121,
            OpCode::Contains => 130,
            OpCode::NotContains => 131,
            OpCode::Len => 132,
            OpCode::Halt => 255,
        }
    }

    pub fn has_operand(self) -> (r: bool)
        ensures
            r == takes_operand(self),
    {
        match self {
            OpCode::LoadConst | OpCode::LoadName | OpCode::StoreName | OpCode::LoadGlobal | OpCode::StoreGlobal | OpCode::LoadLocal | OpCode::StoreLocal | OpCode::Jump | OpCode::JumpIfTrue | OpCode::JumpIfFalse | OpCode::Call | OpCode::BuildList | OpCode::BuildDict | OpCode::BuildTuple | OpCode::BuildSet | OpCode::MakeFunction | OpCode::MakeClosure | OpCode::GetAttr | OpCode::SetAttr => true,
            _ => false,
        }
    }
}

impl From<u8> for OpCode {
    fn from(byte: u8) -> (r: OpCode)
        ensures
            r == opcode_of(byte),
    {
        OpCode::from_byte(byte)
    }
}

impl vstd::std_specs::convert::FromSpecImpl<u8> for OpCode {
    open spec fn obeys_from_spec() -> bool {
        true
    }

    open spec fn from_spec(v: u8) -> OpCode {
        opcode_of(v)
    }
}

/// Every operation code survives a trip through its byte.
pub proof fn lemma_opcode_byte_round_trip(op: OpCode)
    ensures
        opcode_of(byte_of(op)) == op,
{
    reveal(opcode_of);
}


/// Little-endian bytes of a 32-bit word.
pub open spec fn le_bytes(x: u32) -> Seq<u8> {
    seq![
        (x & 0xff) as u8,
        ((x >> 8) & 0xff) as u8,
        ((x >> 16) & 0xff) as u8,
        ((x >> 24) & 0xff) as u8,
    ]
}

/// The 32-bit word with these little-endian bytes.
pub open spec fn le_value(b0: u8, b1: u8, b2: u8, b3: u8) -> u32 {
    (b0 as u32) | ((b1 as u32) << 8) | ((b2 as u32) << 16) | ((b3 as u32) << 24)
}

/// The word stored little-endian at `at`.
pub open spec fn read_u32(d: Seq<u8>, at: int) -> u32 {
    le_value(d[at], d[at + 1], d[at + 2], d[at + 3])
}

pub proof fn lemma_le_round_trip(x: u32)
    ensures
        le_value(le_bytes(x)[0], le_bytes(x)[1], le_bytes(x)[2], le_bytes(x)[3]) == x,
{
    let b0 = (x & 0xff) as u8;
    let b1 = ((x >> 8) & 0xff) as u8;
    let b2 = ((x >> 16) & 0xff) as u8;
    let b3 = ((x >> 24) & 0xff) as u8;
    assert((b0 as u32) | ((b1 as u32) << 8) | ((b2 as u32) << 16) | ((b3 as u32) << 24) == x)
        by (bit_vector)
        requires
            b0 == (x & 0xff) as u8,
            b1 == ((x >> 8) & 0xff) as u8,
            b2 == ((x >> 16) & 0xff) as u8,
            b3 == ((x >> 24) & 0xff) as u8,
    ;
}

fn u32_le(x: u32) -> (r: [u8; 4])
    ensures
        r@ == le_bytes(x),
{
    let r = [(x & 0xff) as u8, ((x >> 8) & 0xff) as u8, ((x >> 16) & 0xff) as u8, ((x >> 24) & 0xff) as u8];
    assert(r@ =~= le_bytes(x));
    r
}

fn le_u32(b0: u8, b1: u8, b2: u8, b3: u8) -> (r: u32)
    ensures
        r == le_value(b0, b1, b2, b3),
{
    (b0 as u32) | ((b1 as u32) << 8) | ((b2 as u32) << 16) | ((b3 as u32) << 24)
}

/// One instruction: an operation code and, for some codes, a 32-bit operand.
#[derive(Debug, Clone, Copy, PartialEq, Eq, Structural)]
pub struct Instruction {
    pub opcode: OpCode,
    pub operand: Option<u32>,
}

/// Wire form of an instruction: its code byte, then the operand little-endian if any.
pub open spec fn encoding(i: Instruction) -> Seq<u8> {
    seq![byte_of(i.opcode)] + match i.operand {
        Some(x) => le_bytes(x),
        None => Seq::empty(),
    }
}

/// The instruction at `off` and its size. An operand is read only when the code takes one
/// and all four of its bytes are present.
pub open spec fn decode_at(code: Seq<u8>, off: int) -> (Instruction, usize) {
    let op = opcode_of(code[off]);
    if takes_operand(op) && off + 4 < code.len() {
        (Instruction { opcode: op, operand: Some(read_u32(code, off + 1)) }, 5)
    } else {
        (Instruction { opcode: op, operand: None }, 1)
    }
}

/// Encoding an instruction whose operand matches its code and decoding it gives it back.
pub proof fn lemma_decode_encoding(code: Seq<u8>, off: int, i: Instruction)
    requires
        0 <= off,
        off + encoding(i).len() <= code.len(),
        code.subrange(off, off + encoding(i).len()) == encoding(i),
        i.operand is Some <==> takes_operand(i.opcode),
    ensures
        decode_at(code, off) == (i, encoding(i).len() as usize),
{
    lemma_opcode_byte_round_trip(i.opcode);
    assert(code[off] == encoding(i)[0]);
    if let Some(x) = i.operand {
        lemma_le_round_trip(x);
        assert(code[off + 1] == encoding(i)[1]);
        assert(code[off + 2] == encoding(i)[2]);
        assert(code[off + 3] == encoding(i)[3]);
        assert(code[off + 4] == encoding(i)[4]);
    }
}

impl Instruction {
    pub fn new(opcode: OpCode) -> (r: Instruction)
        ensures
            r == (Instruction { opcode, operand: None }),
    {
        Instruction { opcode, operand: None }
    }

    pub fn with_operand(opcode: OpCode, operand: u32) -> (r: Instruction)
        ensures
            r == (Instruction { opcode, operand: Some(operand) }),
    {
        Instruction { opcode, operand: Some(operand) }
    }

    pub fn encode(&self) -> (r: Vec<u8>)
        ensures
            r@ == encoding(*self),
    {
        let mut bytes: Vec<u8> = Vec::new();
        bytes.push(self.opcode.to_byte());
        if let Some(op) = self.operand {
            let b = u32_le(op);
            bytes.push(b[0]);
            bytes.push(b[1]);
            bytes.push(b[2]);
            bytes.push(b[3]);
        }
        assert(bytes@ =~= encoding(*self));
        bytes
    }

    pub fn decode(bytes: &[u8], offset: usize) -> (r: (Instruction, usize))
        requires
            offset < bytes@.len(),
        ensures
            r == decode_at(bytes@, offset as int),
    {
        let opcode = OpCode::from_byte(bytes[offset]);
        if opcode.has_operand() && bytes.len() > 4 && offset < bytes.len() - 4 {
            let operand = le_u32(bytes[offset + 1], bytes[offset + 2], bytes[offset + 3], bytes[offset + 4]);
            (Instruction { opcode, operand: Some(operand) }, 5)
        } else {
            (Instruction { opcode, operand: None }, 1)
        }
    }
}

/// Position of the first name equal to `n`, if any.
pub open spec fn name_pos(names: Seq<Seq<char>>, n: Seq<char>) -> Option<int> {
    if exists|j: int| 0 <= j < names.len() && names[j] == n {
        Some(
            choose|j: int|
                0 <= j < names.len() && names[j] == n && forall|m: int|
                    0 <= m < j ==> names[m] != n,
        )
    } else {
        None
    }
}

/// `code` with the four operand bytes of the instruction at `offset` replaced by `target`.
pub open spec fn patched(code: Seq<u8>, offset: int, target: u32) -> Seq<u8> {
    code.subrange(0, offset + 1) + le_bytes(target) + code.subrange(offset + 5, code.len() as int)
}

/// A compiled unit: code bytes, constant pool, interned name pool and an optional line table.
pub struct BytecodeChunk {
    pub code: Vec<u8>,
    pub constants: Vec<Value>,
    pub names: Vec<String>,
    pub line_numbers: Vec<(usize, u32)>,
}

impl BytecodeChunk {
    pub fn new() -> (r: BytecodeChunk)
        ensures
            r.code@.len() == 0,
            r.constants@.len() == 0,
            r.names@.len() == 0,
            r.line_numbers@.len() == 0,
    {
        BytecodeChunk {
            code: Vec::new(),
            constants: Vec::new(),
            names: Vec::new(),
            line_numbers: Vec::new(),
        }
    }

    pub fn emit(&mut self, instruction: Instruction)
        ensures
            final(self).code@ == old(self).code@ + encoding(instruction),
            final(self).constants == old(self).constants,
            final(self).names == old(self).names,
            final(self).line_numbers == old(self).line_numbers,
    {
        let bytes = instruction.encode();
        let ghost before = self.code@;
        let mut i: usize = 0;
        while i < bytes.len()
            invariant
                i <= bytes@.len(),
                bytes@ == encoding(instruction),
                self.code@ == before + bytes@.subrange(0, i as int),
                self.constants == old(self).constants,
                self.names == old(self).names,
                self.line_numbers == old(self).line_numbers,
            decreases bytes.len() - i,
        {
            self.code.push(bytes[i]);
            i = i + 1;
            assert(self.code@ =~= before + bytes@.subrange(0, i as int));
        }
        assert(bytes@.subrange(0, bytes@.len() as int) =~= bytes@);
    }

    pub fn emit_opcode(&mut self, opcode: OpCode)
        ensures
            final(self).code@ == old(self).code@ + encoding(Instruction { opcode, operand: None }),
            final(self).constants == old(self).constants,
            final(self).names == old(self).names,
            final(self).line_numbers == old(self).line_numbers,
    {
        self.emit(Instruction::new(opcode));
    }

    pub fn emit_with_operand(&mut self, opcode: OpCode, operand: u32)
        ensures
            final(self).code@ == old(self).code@ + encoding(
                Instruction { opcode, operand: Some(operand) },
            ),
            final(self).constants == old(self).constants,
            final(self).names == old(self).names,
            final(self).line_numbers == old(self).line_numbers,
    {
        self.emit(Instruction::with_operand(opcode, operand));
    }

    /// Appends a constant and returns its index (as a 32-bit operand).
    pub fn add_constant(&mut self, value: Value) -> (r: u32)
        ensures
            final(self).constants@ == old(self).constants@.push(value),
            r == old(self).constants@.len() as u32,
            final(self).code == old(self).code,
            final(self).names == old(self).names,
            final(self).line_numbers == old(self).line_numbers,
    {
        self.constants.push(value);
        (self.constants.len() - 1) as u32
    }

    /// Interns a name: an equal name already in the pool keeps its index; otherwise the name
    /// is appended.
    pub fn add_name(&mut self, name: String) -> (r: u32)
        ensures
            match name_pos(texts_view(old(self).names@), name@) {
                Some(p) => r == p as u32 && final(self).names == old(self).names,
                None => final(self).names@ == old(self).names@.push(name) && r
                    == old(self).names@.len() as u32,
            },
            name_pos(texts_view(final(self).names@), name@) is Some,
            r == name_pos(texts_view(final(self).names@), name@)->Some_0 as u32,
            old(self).names@.len() < u32::MAX ==> (r as int) < final(self).names@.len()
                && final(self).names@[r as int]@ == name@,
            name_pos(texts_view(old(self).names@), name@) is Some ==> 0 <= name_pos(
                texts_view(old(self).names@),
                name@,
            )->Some_0 < old(self).names@.len(),
            final(self).code == old(self).code,
            final(self).constants == old(self).constants,
            final(self).line_numbers == old(self).line_numbers,
    {
        let ghost m = texts_view(self.names@);
        let mut i: usize = 0;
        while i < self.names.len()
            invariant
                i <= self.names@.len(),
                m == texts_view(self.names@),
                forall|j: int| 0 <= j < i ==> m[j] != name@,
            decreases self.names.len() - i,
        {
            if self.names[i] == name {
                proof {
                    let q = choose|j: int|
                        0 <= j < m.len() && m[j] == name@ && forall|n: int|
                            0 <= n < j ==> m[n] != name@;
                    assert(m[i as int] == name@);
                    if q > i {
                        assert(m[i as int] != name@);
                    }
                    lemma_intern_again(m, name@);
                }
                return i as u32;
            }
            i = i + 1;
        }
        let ghost nv = name@;
        self.names.push(name);
        proof {
            assert(texts_view(self.names@) =~= m.push(nv));
            assert(name_pos(m, nv) is None);
            lemma_intern_again(m, nv);
        }
        (self.names.len() - 1) as u32
    }

    pub fn current_offset(&self) -> (r: usize)
        ensures
            r == self.code@.len(),
    {
        self.code.len()
    }

    /// Overwrites the operand of the instruction at `offset` with `target`.
    pub fn patch_jump(&mut self, offset: usize, target: u32)
        requires
            offset + 4 < old(self).code@.len(),
        ensures
            final(self).code@ == patched(old(self).code@, offset as int, target),
            final(self).constants == old(self).constants,
            final(self).names == old(self).names,
            final(self).line_numbers == old(self).line_numbers,
    {
        let b = u32_le(target);
        assert(offset + 4 < self.code.len());
        let i4 = offset + 4;
        let (i1, i2, i3) = (i4 - 3, i4 - 2, i4 - 1);
        self.code.set(i1, b[0]);
        self.code.set(i2, b[1]);
        self.code.set(i3, b[2]);
        self.code.set(i4, b[3]);
        assert(self.code@ =~= patched(old(self).code@, offset as int, target));
    }
}


/// The four magic bytes `RMCB` that open a serialized chunk.
pub open spec fn magic() -> Seq<u8> {
    seq![0x52u8, 0x4du8, 0x43u8, 0x42u8]
}

/// Format version written after the magic bytes.
pub const FORMAT_VERSION: u8 = 1;

/// A serialized chunk: magic, version, then three sections (code, constants, names), each
/// preceded by its length as a little-endian 32-bit word.
pub open spec fn framed(code: Seq<u8>, consts: Seq<u8>, names: Seq<u8>) -> Seq<u8> {
    magic() + seq![FORMAT_VERSION] + le_bytes(code.len() as u32) + code + le_bytes(
        consts.len() as u32,
    ) + consts + le_bytes(names.len() as u32) + names
}

/// The three sections of a serialized chunk, or `None` when the buffer is too short for
/// what its headers announce or does not start with the magic bytes. The version byte is
/// not checked, and bytes after the names section are ignored.
pub open spec fn unframed(d: Seq<u8>) -> Option<(Seq<u8>, Seq<u8>, Seq<u8>)> {
    if d.len() < 9 || d.subrange(0, 4) != magic() {
        None
    } else {
        let a = 9 + read_u32(d, 5);
        if a + 4 > d.len() {
            None
        } else {
            let b = a + 4 + read_u32(d, a);
            if b + 4 > d.len() {
                None
            } else {
                let c = b + 4 + read_u32(d, b);
                if c > d.len() {
                    None
                } else {
                    Some((d.subrange(9, a), d.subrange(a + 4, b), d.subrange(b + 4, c)))
                }
            }
        }
    }
}

/// Why a buffer does not split into sections.
pub open spec fn unframe_message(d: Seq<u8>) -> Seq<char> {
    if d.len() < 9 {
        "Invalid bytecode: too short"@
    } else if d.subrange(0, 4) != magic() {
        "Invalid bytecode: wrong magic number"@
    } else {
        let a = 9 + read_u32(d, 5);
        if a + 4 > d.len() {
            "Invalid bytecode: truncated code section"@
        } else {
            let b = a + 4 + read_u32(d, a);
            if b + 4 > d.len() {
                "Invalid bytecode: truncated constants section"@
            } else {
                "Invalid bytecode: truncated names section"@
            }
        }
    }
}

/// Why a buffer does not deserialize.
pub open spec fn load_message(d: Seq<u8>) -> Seq<char> {
    match unframed(d) {
        None => unframe_message(d),
        Some((code, consts, names)) => if !valid_utf8(consts) {
            "Invalid UTF-8 in constants"@
        } else if !valid_utf8(names) {
            "Invalid UTF-8 in names"@
        } else {
            "Failed to parse names"@
        },
    }
}

/// Splitting a framed buffer gives back its three sections.
pub proof fn lemma_frame_round_trip(code: Seq<u8>, consts: Seq<u8>, names: Seq<u8>)
    requires
        code.len() <= u32::MAX,
        consts.len() <= u32::MAX,
        names.len() <= u32::MAX,
    ensures
        unframed(framed(code, consts, names)) == Some((code, consts, names)),
{
    let d = framed(code, consts, names);
    lemma_le_round_trip(code.len() as u32);
    lemma_le_round_trip(consts.len() as u32);
    lemma_le_round_trip(names.len() as u32);
    let a: int = 9 + code.len() as int;
    let b: int = a + 4 + consts.len();
    let c: int = b + 4 + names.len();
    assert(d.subrange(0, 4) =~= magic());
    assert(d[5] == le_bytes(code.len() as u32)[0]);
    assert(d[6] == le_bytes(code.len() as u32)[1]);
    assert(d[7] == le_bytes(code.len() as u32)[2]);
    assert(d[8] == le_bytes(code.len() as u32)[3]);
    assert(read_u32(d, 5) == code.len());
    assert(d[a] == le_bytes(consts.len() as u32)[0]);
    assert(d[a + 1] == le_bytes(consts.len() as u32)[1]);
    assert(d[a + 2] == le_bytes(consts.len() as u32)[2]);
    assert(d[a + 3] == le_bytes(consts.len() as u32)[3]);
    assert(read_u32(d, a) == consts.len());
    assert(d[b] == le_bytes(names.len() as u32)[0]);
    assert(d[b + 1] == le_bytes(names.len() as u32)[1]);
    assert(d[b + 2] == le_bytes(names.len() as u32)[2]);
    assert(d[b + 3] == le_bytes(names.len() as u32)[3]);
    assert(read_u32(d, b) == names.len());
    assert(d.subrange(9, a) =~= code);
    assert(d.subrange(a + 4, b) =~= consts);
    assert(d.subrange(b + 4, c) =~= names);
}

/// The raw sections of a serialized chunk.
pub struct Sections {
    pub code: Vec<u8>,
    pub constants: Vec<u8>,
    pub names: Vec<u8>,
}

fn append_range(out: &mut Vec<u8>, src: &[u8], from: usize, to: usize)
    requires
        from <= to <= src@.len(),
    ensures
        final(out)@ == old(out)@ + src@.subrange(from as int, to as int),
{
    let ghost start = out@;
    let mut i: usize = from;
    while i < to
        invariant
            from <= i <= to,
            to <= src@.len(),
            out@ == start + src@.subrange(from as int, i as int),
        decreases to - i,
    {
        out.push(src[i]);
        i = i + 1;
        assert(out@ =~= start + src@.subrange(from as int, i as int));
    }
}

fn append_word(out: &mut Vec<u8>, x: u32)
    ensures
        final(out)@ == old(out)@ + le_bytes(x),
{
    let b = u32_le(x);
    out.push(b[0]);
    out.push(b[1]);
    out.push(b[2]);
    out.push(b[3]);
    assert(out@ =~= old(out)@ + le_bytes(x));
}

/// Lays out the three sections behind the magic bytes and version.
pub fn frame(code: &[u8], constants: &[u8], names: &[u8]) -> (r: Vec<u8>)
    ensures
        r@ == framed(code@, constants@, names@),
{
    let mut out: Vec<u8> = Vec::new();
    out.push(0x52);
    out.push(0x4d);
    out.push(0x43);
    out.push(0x42);
    out.push(FORMAT_VERSION);
    append_word(&mut out, code.len() as u32);
    append_range(&mut out, code, 0, code.len());
    append_word(&mut out, constants.len() as u32);
    append_range(&mut out, constants, 0, constants.len());
    append_word(&mut out, names.len() as u32);
    append_range(&mut out, names, 0, names.len());
    assert(code@.subrange(0, code@.len() as int) =~= code@);
    assert(constants@.subrange(0, constants@.len() as int) =~= constants@);
    assert(names@.subrange(0, names@.len() as int) =~= names@);
    assert(out@ =~= framed(code@, constants@, names@));
    out
}

fn word_at(d: &[u8], at: usize) -> (r: u32)
    requires
        at + 4 <= d@.len(),
    ensures
        r == read_u32(d@, at as int),
{
    le_u32(d[at], d[at + 1], d[at + 2], d[at + 3])
}

/// Splits a serialized chunk into its sections.
pub fn unframe(data: &[u8]) -> (r: Result<Sections, String>)
    ensures
        match r {
            Ok(s) => unframed(data@) == Some((s.code@, s.constants@, s.names@)),
            Err(m) => unframed(data@) is None && m@ == unframe_message(data@),
        },
{
    if data.len() < 9 {
        return Err(String::from_str("Invalid bytecode: too short"));
    }
    if !(data[0] == 0x52 && data[1] == 0x4d && data[2] == 0x43 && data[3] == 0x42) {
        assert(data@.subrange(0, 4) != magic()) by {
            if data@.subrange(0, 4) == magic() {
                assert(data@[0] == data@.subrange(0, 4)[0]);
                assert(data@[1] == data@.subrange(0, 4)[1]);
                assert(data@[2] == data@.subrange(0, 4)[2]);
                assert(data@[3] == data@.subrange(0, 4)[3]);
            }
        }
        return Err(String::from_str("Invalid bytecode: wrong magic number"));
    }
    assert(data@.subrange(0, 4) =~= magic());
    let n = data.len();
    let code_len = word_at(data, 5) as usize;
    if code_len > n - 9 || n - 9 - code_len < 4 {
        return Err(String::from_str("Invalid bytecode: truncated code section"));
    }
    let a = 9 + code_len;
    let const_len = word_at(data, a) as usize;
    if const_len > n - a - 4 || n - a - 4 - const_len < 4 {
        return Err(String::from_str("Invalid bytecode: truncated constants section"));
    }
    let b = a + 4 + const_len;
    let names_len = word_at(data, b) as usize;
    if names_len > n - b - 4 {
        return Err(String::from_str("Invalid bytecode: truncated names section"));
    }
    let c = b + 4 + names_len;
    let mut code: Vec<u8> = Vec::new();
    append_range(&mut code, data, 9, a);
    let mut constants: Vec<u8> = Vec::new();
    append_range(&mut constants, data, a + 4, b);
    let mut names: Vec<u8> = Vec::new();
    append_range(&mut names, data, b + 4, c);
    assert(code@ =~= data@.subrange(9, a as int));
    assert(constants@ =~= data@.subrange(a + 4, b as int));
    assert(names@ =~= data@.subrange(b + 4, c as int));
    Ok(Sections { code, constants, names })
}

/// Name for what serde_json writes for a list of strings: a JSON array text.
pub uninterp spec fn json_of_names(names: Seq<Seq<char>>) -> Seq<char>;

/// Name for what serde_json reads from a text as a list of strings; `None` when the text is
/// not a JSON array of strings.
pub uninterp spec fn names_of_json(text: Seq<char>) -> Option<Seq<Seq<char>>>;

/// Relies on `serde_json::to_string` for `Vec<String>`: the JSON array of the names. Writing
/// strings into a `String` cannot fail, so the empty fallback is never taken.
#[verifier::external_body]
fn names_to_json(names: &Vec<String>) -> (r: String)
    ensures
        r@ == json_of_names(texts_view(names@)),
{
    serde_json::to_string(names).unwrap_or_default()
}

/// Relies on `serde_json::from_str::<Vec<String>>`: the strings of a JSON array, or an
/// error. The result depends on the text alone.
#[verifier::external_body]
fn names_from_json(text: &str) -> (r: Option<Vec<String>>)
    ensures
        match r {
            Some(v) => names_of_json(text@) == Some(texts_view(v@)),
            None => names_of_json(text@) is None,
        },
{
    serde_json::from_str::<Vec<String>>(text).ok()
}

/// Relies on `std::str::from_utf8`: it accepts exactly the valid UTF-8 byte sequences, and
/// the text it gives is what they encode.
#[verifier::external_body]
fn text_from_utf8(bytes: &[u8]) -> (r: Option<String>)
    ensures
        r is Some <==> valid_utf8(bytes@),
        r is Some ==> r->Some_0@ == decode_utf8(bytes@),
{
    std::str::from_utf8(bytes).ok().map(String::from)
}

/// A chunk read back from bytes: the constants section is handed over as JSON text for the
/// host to decode, and `chunk.constants` is empty until then.
pub struct Loaded {
    pub chunk: BytecodeChunk,
    pub constants_json: String,
}

/// Whether deserialization succeeds on `d`.
pub open spec fn loadable(d: Seq<u8>) -> bool {
    match unframed(d) {
        Some((code, consts, names)) => valid_utf8(consts) && valid_utf8(names) && names_of_json(
            decode_utf8(names),
        ) is Some,
        None => false,
    }
}

impl BytecodeChunk {
    /// Serializes the chunk; `constants_json` is the JSON text of the constant pool. The line
    /// table is not written.
    pub fn serialize(&self, constants_json: &String) -> (r: Vec<u8>)
        ensures
            r@ == framed(
                self.code@,
                encode_utf8(constants_json@),
                encode_utf8(json_of_names(texts_view(self.names@))),
            ),
    {
        let names = names_to_json(&self.names);
        frame(self.code.as_slice(), constants_json.as_str().as_bytes(), names.as_str().as_bytes())
    }

    /// Reads a serialized chunk back. The error is a message for a short buffer, wrong magic,
    /// a section that is not UTF-8, or a names section that is not a JSON list of strings.
    pub fn deserialize(data: &[u8]) -> (r: Result<Loaded, String>)
        ensures
            r is Ok <==> loadable(data@),
            r is Err ==> r->Err_0@ == load_message(data@),
            r is Ok ==> {
                let (code, consts, names) = unframed(data@)->Some_0;
                let l = r->Ok_0;
                &&& l.chunk.code@ == code
                &&& l.constants_json@ == decode_utf8(consts)
                &&& Some(texts_view(l.chunk.names@)) == names_of_json(decode_utf8(names))
                &&& l.chunk.constants@.len() == 0
                &&& l.chunk.line_numbers@.len() == 0
            },
    {
        let sections = match unframe(data) {
            Ok(s) => s,
            Err(e) => return Err(e),
        };
        let constants_json = match text_from_utf8(sections.constants.as_slice()) {
            Some(t) => t,
            None => return Err(String::from_str("Invalid UTF-8 in constants")),
        };
        let names_text = match text_from_utf8(sections.names.as_slice()) {
            Some(t) => t,
            None => return Err(String::from_str("Invalid UTF-8 in names")),
        };
        let names = match names_from_json(names_text.as_str()) {
            Some(v) => v,
            None => return Err(String::from_str("Failed to parse names")),
        };
        Ok(Loaded {
            chunk: BytecodeChunk {
                code: sections.code,
                constants: Vec::new(),
                names,
                line_numbers: Vec::new(),
            },
            constants_json,
        })
    }
}

/// Reading back a serialized chunk gives its code, the same constants text and the names'
/// JSON, whenever the sections fit the 32-bit length fields; when, in addition, reading the
/// names' JSON gives the names back, the chunk deserializes, with exactly that code,
/// constants text and names.
pub proof fn lemma_serialize_round_trip(
    code: Seq<u8>,
    constants_json: Seq<char>,
    names: Seq<Seq<char>>,
)
    requires
        code.len() <= u32::MAX,
        encode_utf8(constants_json).len() <= u32::MAX,
        encode_utf8(json_of_names(names)).len() <= u32::MAX,
    ensures
        ({
            let d = framed(code, encode_utf8(constants_json), encode_utf8(json_of_names(names)));
            &&& unframed(d) == Some(
                (code, encode_utf8(constants_json), encode_utf8(json_of_names(names))),
            )
            &&& valid_utf8(encode_utf8(constants_json))
            &&& decode_utf8(encode_utf8(constants_json)) == constants_json
            &&& valid_utf8(encode_utf8(json_of_names(names)))
            &&& decode_utf8(encode_utf8(json_of_names(names))) == json_of_names(names)
            &&& names_of_json(json_of_names(names)) == Some(names) ==> loadable(d)
        }),
{
    lemma_frame_round_trip(code, encode_utf8(constants_json), encode_utf8(json_of_names(names)));
    vstd::utf8::encode_utf8_valid_utf8(constants_json);
    vstd::utf8::encode_utf8_decode_utf8(constants_json);
    vstd::utf8::encode_utf8_valid_utf8(json_of_names(names));
    vstd::utf8::encode_utf8_decode_utf8(json_of_names(names));
}

fn copy_bytes(v: &Vec<u8>) -> (r: Vec<u8>)
    ensures
        r@ == v@,
{
    let mut out: Vec<u8> = Vec::new();
    append_range(&mut out, v.as_slice(), 0, v.len());
    assert(v@.subrange(0, v@.len() as int) =~= v@);
    out
}

impl BytecodeChunk {
    /// A deep copy of the chunk.
    pub fn duplicate(&self) -> (r: BytecodeChunk)
        ensures
            r.code@ == self.code@,
            r.names@ == self.names@,
            r.line_numbers@ == self.line_numbers@,
            r.constants@.len() == self.constants@.len(),
            forall|i: int| 0 <= i < self.constants@.len() ==> #[trigger] r.constants@[i]@ == self.constants@[i]@,
    {
        let mut constants: Vec<Value> = Vec::new();
        let mut i: usize = 0;
        while i < self.constants.len()
            invariant
                i <= self.constants@.len(),
                constants@.len() == i,
                forall|j: int| 0 <= j < i ==> #[trigger] constants@[j]@ == self.constants@[j]@,
            decreases self.constants.len() - i,
        {
            constants.push(self.constants[i].duplicate());
            i = i + 1;
        }
        let mut lines: Vec<(usize, u32)> = Vec::new();
        let mut k: usize = 0;
        while k < self.line_numbers.len()
            invariant
                k <= self.line_numbers@.len(),
                lines@ == self.line_numbers@.subrange(0, k as int),
            decreases self.line_numbers.len() - k,
        {
            lines.push(self.line_numbers[k]);
            k = k + 1;
            assert(lines@ =~= self.line_numbers@.subrange(0, k as int));
        }
        assert(self.line_numbers@.subrange(0, self.line_numbers@.len() as int) =~= self.line_numbers@);
        BytecodeChunk {
            code: copy_bytes(&self.code),
            constants,
            names: crate::value::copy_texts(&self.names),
            line_numbers: lines,
        }
    }
}

/// Later interning never moves a name: once `n` sits first at `p`, appending any name keeps
/// it first at `p`, so every later `add_name(n)` on the chunk returns the same index.
pub proof fn lemma_intern_kept(names: Seq<Seq<char>>, n: Seq<char>, x: Seq<char>)
    requires
        name_pos(names, n) is Some,
        0 <= name_pos(names, n)->Some_0 < names.len(),
    ensures
        name_pos(names.push(x), n) == name_pos(names, n),
{
    let p = name_pos(names, n)->Some_0;
    let e2 = names.push(x);
    assert(names[p] == n && forall|m: int| 0 <= m < p ==> names[m] != n) by {
        let w = choose|j: int| 0 <= j < names.len() && names[j] == n;
        lemma_first_name(names, n, w);
    }
    assert(e2[p] == n);
    assert forall|m: int| 0 <= m < p implies e2[m] != n by {
        assert(e2[m] == names[m]);
    }
    let q = choose|j: int| 0 <= j < e2.len() && e2[j] == n && forall|m: int| 0 <= m < j ==> e2[m] != n;
    if q < p {
        assert(e2[q] == names[q]);
    } else if q > p {
        assert(e2[p] != n);
    }
}

/// A name that occurs has a first occurrence.
proof fn lemma_first_name(names: Seq<Seq<char>>, n: Seq<char>, j: int)
    requires
        0 <= j < names.len(),
        names[j] == n,
    ensures
        exists|q: int| 0 <= q < names.len() && names[q] == n && forall|m: int| 0 <= m < q ==> names[m] != n,
    decreases j,
{
    if exists|m: int| 0 <= m < j && names[m] == n {
        let m = choose|m: int| 0 <= m < j && names[m] == n;
        lemma_first_name(names, n, m);
    } else {
        assert(0 <= j < names.len() && names[j] == n && forall|m: int| 0 <= m < j ==> names[m] != n);
    }
}

/// Interning is stable: after `add_name(n)` has returned an index (the first position of an
/// equal name, or the end where `n` was appended), interning `n` again finds that same
/// index, so equal names share one index within a chunk.
pub proof fn lemma_intern_again(names: Seq<Seq<char>>, n: Seq<char>)
    ensures
        ({
            let (after, idx) = match name_pos(names, n) {
                Some(p) => (names, p),
                None => (names.push(n), names.len() as int),
            };
            name_pos(after, n) == Some(idx)
        }),
{
    if name_pos(names, n) is None {
        let e2 = names.push(n);
        let k = names.len() as int;
        assert(e2[k] == n);
        assert forall|m: int| 0 <= m < k implies e2[m] != n by {
            assert(e2[m] == names[m]);
        }
        let q = choose|j: int|
            0 <= j < e2.len() && e2[j] == n && forall|m: int| 0 <= m < j ==> e2[m] != n;
        if q < k {
            assert(e2[q] == names[q]);
        }
    }
}
} // verus!
