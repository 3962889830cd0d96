//! The four-byte instruction: its opcode table, the addressing modes of its
//! operand bytes, its conversions to and from bytes and words, and its
//! mnemonic text.

use crate::text::{decimal, push_decimal};
use vstd::prelude::*;
use vstd::std_specs::convert::FromSpecImpl;

verus! {

/// The operations of the machine.
#[derive(Debug, PartialEq, Eq, Clone, Copy, Structural)]
pub enum Opcode {
    Halt,
    Load,
    Store,
    SetRegister,
    CopyRegister,
    JumpIfTrue,
    JumpIfFalse,
    Add,
    Subtract,
    Multiply,
    Divide,
    Modulo,
    Equal,
    NotEqual,
    LessThan,
    LessOrEqual,
    GreaterThan,
    GreaterOrEqual,
    ReadInput,
    WriteOutput,
}

impl Opcode {
    /// The byte that encodes this operation.
    pub open spec fn code(self) -> u8 {
        match self {
            Opcode::Halt => 0x00,
            Opcode::Load => 0x01,
            Opcode::Store => 0x02,
            Opcode::SetRegister => 0x03,
            Opcode::CopyRegister => 0x04,
            Opcode::JumpIfTrue => 0x10,
            Opcode::JumpIfFalse => 0x11,
            Opcode::Add => 0x20,
            Opcode::Subtract => 0x21,
            Opcode::Multiply => 0x22,
            Opcode::Divide => 0x23,
            Opcode::Modulo => 0x24,
            Opcode::Equal => 0x30,
            Opcode::NotEqual => 0x31,
            Opcode::LessThan => 0x32,
            Opcode::LessOrEqual => 0x33,
            Opcode::GreaterThan => 0x34,
            Opcode::GreaterOrEqual => 0x35,
            Opcode::ReadInput => 0x50,
            Opcode::WriteOutput => 0x51,
        }
    }

    /// The mnemonic that names this operation in assembly text.
    pub open spec fn name(self) -> Seq<char> {
        match self {
            Opcode::Halt => seq!['h', 'l', 't'],
            Opcode::Load => seq!['l', 'd', 'r'],
            Opcode::Store => seq!['s', 't', 'r'],
            Opcode::SetRegister => seq!['s', 'e', 't'],
            Opcode::CopyRegister => seq!['c', 'p', 'y'],
            Opcode::JumpIfTrue => seq!['j', 'p', 't'],
            Opcode::JumpIfFalse => seq!['j', 'p', 'f'],
            Opcode::Add => seq!['a', 'd', 'd'],
            Opcode::Subtract => seq!['s', 'u', 'b'],
            Opcode::Multiply => seq!['m', 'u', 'l'],
            Opcode::Divide => seq!['d', 'i', 'v'],
            Opcode::Modulo => seq!['m', 'o', 'd'],
            Opcode::Equal => seq!['e', 'q', 'l'],
            Opcode::NotEqual => seq!['n', 'e', 'q'],
            Opcode::LessThan => seq!['l', 'e', 't'],
            Opcode::LessOrEqual => seq!['l', 'e', 'q'],
            Opcode::GreaterThan => seq!['g', 'r', 't'],
            Opcode::GreaterOrEqual => seq!['g', 'e', 'q'],
            Opcode::ReadInput => seq!['s', 't', 'i'],
            Opcode::WriteOutput => seq!['s', 't', 'o'],
        }
    }

    /// Every operation, in the order in which the assembler tries their
    /// mnemonics.
    pub open spec fn table() -> Seq<Opcode> {
        seq![
            Opcode::Halt,
            Opcode::Load,
            Opcode::Store,
            Opcode::SetRegister,
            Opcode::CopyRegister,
            Opcode::JumpIfTrue,
            Opcode::JumpIfFalse,
            Opcode::Add,
            Opcode::Subtract,
            Opcode::Multiply,
            Opcode::Divide,
            Opcode::Modulo,
            Opcode::Equal,
            Opcode::NotEqual,
            Opcode::LessThan,
            Opcode::LessOrEqual,
            Opcode::GreaterThan,
            Opcode::GreaterOrEqual,
            Opcode::ReadInput,
            Opcode::WriteOutput,
        ]
    }

    /// The operation that `byte` encodes, if it encodes one.
    pub open spec fn decode(byte: u8) -> Option<Opcode> {
        if exists|op: Opcode| op.code() == byte {
            Some(choose|op: Opcode| op.code() == byte)
        } else {
            None
        }
    }

    /// The operation that the mnemonic `name` stands for, if it is one.
    pub open spec fn named(name: Seq<char>) -> Option<Opcode> {
        if exists|op: Opcode| op.name() == name {
            Some(choose|op: Opcode| op.name() == name)
        } else {
            None
        }
    }

    /// No two operations share a code or a mnemonic, and the table holds
    /// each of them.
    pub proof fn lemma_distinct(a: Opcode, b: Opcode)
        ensures
            a.code() == b.code() ==> a == b,
            a.name() == b.name() ==> a == b,
            Opcode::decode(a.code()) == Some(a),
            Opcode::named(a.name()) == Some(a),
            Opcode::table().contains(a),
            a.name().len() == 3,
    {
        assert(a.name()[0] == b.name()[0] && a.name()[1] == b.name()[1] && a.name()[2]
            == b.name()[2] ==> a == b);
        let by_code = choose|op: Opcode| op.code() == a.code();
        assert(by_code.code() == a.code());
        let by_name = choose|op: Opcode| op.name() == a.name();
        assert(by_name.name() == a.name());
        assert(by_name.name()[0] == a.name()[0] && by_name.name()[1] == a.name()[1]
            && by_name.name()[2] == a.name()[2]);
        let t = Opcode::table();
        assert(t[0] == Opcode::Halt && t[1] == Opcode::Load && t[2] == Opcode::Store);
        assert(t[3] == Opcode::SetRegister && t[4] == Opcode::CopyRegister);
        assert(t[5] == Opcode::JumpIfTrue && t[6] == Opcode::JumpIfFalse);
        assert(t[7] == Opcode::Add && t[8] == Opcode::Subtract && t[9] == Opcode::Multiply);
        assert(t[10] == Opcode::Divide && t[11] == Opcode::Modulo);
        assert(t[12] == Opcode::Equal && t[13] == Opcode::NotEqual);
        assert(t[14] == Opcode::LessThan && t[15] == Opcode::LessOrEqual);
        assert(t[16] == Opcode::GreaterThan && t[17] == Opcode::GreaterOrEqual);
        assert(t[18] == Opcode::ReadInput && t[19] == Opcode::WriteOutput);
    }

    /// The byte that encodes this operation.
    pub fn byte(self) -> (byte: u8)
        ensures
            byte == self.code(),
    {
        match self {
            Opcode::Halt => 0x00,
            Opcode::Load => 0x01,
            Opcode::Store => 0x02,
            Opcode::SetRegister => 0x03,
            Opcode::CopyRegister => 0x04,
            Opcode::JumpIfTrue => 0x10,
            Opcode::JumpIfFalse => 0x11,
            Opcode::Add => 0x20,
            Opcode::Subtract => 0x21,
            Opcode::Multiply => 0x22,
            Opcode::Divide => 0x23,
            Opcode::Modulo => 0x24,
            Opcode::Equal => 0x30,
            Opcode::NotEqual => 0x31,
            Opcode::LessThan => 0x32,
            Opcode::LessOrEqual => 0x33,
            Opcode::GreaterThan => 0x34,
            Opcode::GreaterOrEqual => 0x35,
            Opcode::ReadInput => 0x50,
            Opcode::WriteOutput => 0x51,
        }
    }

    /// Decodes an opcode byte. Fails exactly on the bytes that encode no
    /// operation.
    pub fn from_byte(byte: u8) -> (op: Option<Opcode>)
        ensures
            op == Opcode::decode(byte),
    {
        let op = match byte {
            0x00 => Some(Opcode::Halt),
            0x01 => Some(Opcode::Load),
            0x02 => Some(Opcode::Store),
            0x03 => Some(Opcode::SetRegister),
            0x04 => Some(Opcode::CopyRegister),
            0x10 => Some(Opcode::JumpIfTrue),
            0x11 => Some(Opcode::JumpIfFalse),
            0x20 => Some(Opcode::Add),
            0x21 => Some(Opcode::Subtract),
            0x22 => Some(Opcode::Multiply),
            0x23 => Some(Opcode::Divide),
            0x24 => Some(Opcode::Modulo),
            0x30 => Some(Opcode::Equal),
            0x31 => Some(Opcode::NotEqual),
            0x32 => Some(Opcode::LessThan),
            0x33 => Some(Opcode::LessOrEqual),
            0x34 => Some(Opcode::GreaterThan),
            0x35 => Some(Opcode::GreaterOrEqual),
            0x50 => Some(Opcode::ReadInput),
            0x51 => Some(Opcode::WriteOutput),
            _ => None,
        };
        proof {
            match op {
                Some(found) => {
                    Opcode::lemma_distinct(found, found);
                },
                None => {
                    assert forall|other: Opcode| other.code() != byte by {}
                },
            }
        }
        op
    }

    /// The mnemonic that names this operation.
    pub fn mnemonic(self) -> (name: &'static str)
        ensures
            name@ == self.name(),
    {
        proof {
            reveal_strlit("hlt");
            reveal_strlit("ldr");
            reveal_strlit("str");
            reveal_strlit("set");
            reveal_strlit("cpy");
            reveal_strlit("jpt");
            reveal_strlit("jpf");
            reveal_strlit("add");
            reveal_strlit("sub");
            reveal_strlit("mul");
            reveal_strlit("div");
            reveal_strlit("mod");
            reveal_strlit("eql");
            reveal_strlit("neq");
            reveal_strlit("let");
            reveal_strlit("leq");
            reveal_strlit("grt");
            reveal_strlit("geq");
            reveal_strlit("sti");
            reveal_strlit("sto");
        }
        let name = match self {
            Opcode::Halt => "hlt",
            Opcode::Load => "ldr",
            Opcode::Store => "str",
            Opcode::SetRegister => "set",
            Opcode::CopyRegister => "cpy",
            Opcode::JumpIfTrue => "jpt",
            Opcode::JumpIfFalse => "jpf",
            Opcode::Add => "add",
            Opcode::Subtract => "sub",
            Opcode::Multiply => "mul",
            Opcode::Divide => "div",
            Opcode::Modulo => "mod",
            Opcode::Equal => "eql",
            Opcode::NotEqual => "neq",
            Opcode::LessThan => "let",
            Opcode::LessOrEqual => "leq",
            Opcode::GreaterThan => "grt",
            Opcode::GreaterOrEqual => "geq",
            Opcode::ReadInput => "sti",
            Opcode::WriteOutput => "sto",
        };
        assert(name@ =~= self.name());
        name
    }

    /// Every operation, in the order of [`Opcode::table`].
    pub fn all() -> (table: [Opcode; 20])
        ensures
            table@ == Opcode::table(),
    {
        let table = [
            Opcode::Halt,
            Opcode::Load,
            Opcode::Store,
            Opcode::SetRegister,
            Opcode::CopyRegister,
            Opcode::JumpIfTrue,
            Opcode::JumpIfFalse,
            Opcode::Add,
            Opcode::Subtract,
            Opcode::Multiply,
            Opcode::Divide,
            Opcode::Modulo,
            Opcode::Equal,
            Opcode::NotEqual,
            Opcode::LessThan,
            Opcode::LessOrEqual,
            Opcode::GreaterThan,
            Opcode::GreaterOrEqual,
            Opcode::ReadInput,
            Opcode::WriteOutput,
        ];
        assert(table@ =~= Opcode::table());
        table
    }
}

/// What an operand byte says: an addressing mode and the value it carries.
#[derive(Debug, PartialEq, Eq, Clone, Copy, Structural)]
pub enum Operand {
    /// A literal constant.
    Immediate(u8),
    /// A distance from the program counter.
    Offset(u8),
    /// An index into the register file.
    Register(u8),
}

impl Operand {
    /// The reading of an operand byte. The high bits choose the mode, tried
    /// from the top: a set top bit is an immediate of the low seven bits;
    /// else a set second bit is an offset of the low six bits; else a high
    /// nibble that is not zero is a register of the low four bits; and a
    /// zero high nibble is an immediate of the low four bits.
    pub open spec fn decode(byte: u8) -> Operand {
        if byte >= 0x80 {
            Operand::Immediate((byte - 0x80) as u8)
        } else if byte >= 0x40 {
            Operand::Offset((byte - 0x40) as u8)
        } else if byte >= 0x10 {
            Operand::Register((byte % 0x10) as u8)
        } else {
            Operand::Immediate(byte)
        }
    }

    /// The value that the operand carries.
    pub open spec fn value(self) -> u8 {
        match self {
            Operand::Immediate(v) => v,
            Operand::Offset(v) => v,
            Operand::Register(v) => v,
        }
    }

    /// The letter that marks the operand's mode in assembly text.
    pub open spec fn suffix(self) -> char {
        match self {
            Operand::Immediate(_) => 'i',
            Operand::Offset(_) => 'o',
            Operand::Register(_) => 'r',
        }
    }

    /// The operand in assembly text: its value in decimal, then its mode
    /// letter.
    pub open spec fn text(self) -> Seq<char> {
        decimal(self.value() as nat).push(self.suffix())
    }

    /// The mode of an operand byte goes by its high nibble, and the value is
    /// the byte's low bits: seven of them for a nibble of eight or more, six
    /// for a nibble from four to seven, four for a nibble from one to three
    /// and for a nibble of zero.
    pub proof fn lemma_decode_by_nibble(byte: u8)
        ensures
            match Operand::decode(byte) {
                Operand::Immediate(v) => (byte / 16 >= 8 && v == byte % 128) || (byte / 16 == 0
                    && v == byte % 16),
                Operand::Offset(v) => 4 <= byte / 16 < 8 && v == byte % 64,
                Operand::Register(v) => 1 <= byte / 16 < 4 && v == byte % 16,
            },
    {
    }

    /// An immediate is below 128, an offset below 64, a register index
    /// below 16: every operand byte names a register that exists.
    pub proof fn lemma_decode_bounds(byte: u8)
        ensures
            match Operand::decode(byte) {
                Operand::Immediate(v) => v < 128,
                Operand::Offset(v) => v < 64,
                Operand::Register(v) => v < 16,
            },
    {
    }

    /// Reads an operand byte.
    pub fn from_byte(byte: u8) -> (operand: Operand)
        ensures
            operand == Operand::decode(byte),
    {
        let mode = (byte & 0xF0) >> 4;
        proof {
            assert(((byte & 0xF0u8) >> 4u8) >= 8 <==> byte >= 0x80) by (bit_vector);
            assert(((byte & 0xF0u8) >> 4u8) >= 4 <==> byte >= 0x40) by (bit_vector);
            assert(((byte & 0xF0u8) >> 4u8) >= 1 <==> byte >= 0x10) by (bit_vector);
            assert(byte >= 0x80 ==> byte & 0x7Fu8 == (byte - 0x80u8) as u8) by (bit_vector);
            assert(0x40 <= byte < 0x80 ==> byte & 0x3Fu8 == (byte - 0x40u8) as u8)
                by (bit_vector);
            assert(byte & 0x0Fu8 == byte % 0x10u8) by (bit_vector);
        }
        if mode >= 0b1000 {
            Operand::Immediate(byte & 0b0111_1111)
        } else if mode >= 0b0100 {
            Operand::Offset(byte & 0b0011_1111)
        } else if mode >= 0b0001 {
            Operand::Register(byte & 0x0F)
        } else {
            Operand::Immediate(byte & 0x0F)
        }
    }
}

/// One machine instruction: an opcode and three operand bytes.
#[derive(Debug, PartialEq, Eq, Clone, Copy, Structural)]
pub struct Instruction {
    pub opcode: u8,
    pub dest: u8,
    pub op1: u8,
    pub op2: u8,
}

/// The mnemonic shown for an opcode byte that encodes no operation.
pub open spec fn invalid_name() -> Seq<char> {
    seq!['i', 'n', 'v', 'a', 'l', 'i', 'd']
}

impl Instruction {
    /// The instruction as a 32-bit word: the opcode in the most significant
    /// byte, then `dest`, `op1` and, least significant, `op2`.
    pub open spec fn word(self) -> u32 {
        (self.opcode * 0x100_0000 + self.dest * 0x1_0000 + self.op1 * 0x100 + self.op2) as u32
    }

    /// The instruction that a 32-bit word holds.
    pub open spec fn of_word(word: u32) -> Instruction {
        Instruction {
            opcode: (word / 0x100_0000) as u8,
            dest: (word / 0x1_0000 % 0x100) as u8,
            op1: (word / 0x100 % 0x100) as u8,
            op2: (word % 0x100) as u8,
        }
    }

    /// The instruction as its four bytes, in the order opcode, `dest`,
    /// `op1`, `op2`.
    pub open spec fn bytes(self) -> Seq<u8> {
        seq![self.opcode, self.dest, self.op1, self.op2]
    }

    /// The instruction that four bytes hold.
    pub open spec fn of_bytes(bytes: Seq<u8>) -> Instruction
        recommends
            bytes.len() == 4,
    {
        Instruction { opcode: bytes[0], dest: bytes[1], op1: bytes[2], op2: bytes[3] }
    }

    /// The mnemonic of the instruction's opcode, or the text `invalid` where
    /// the opcode byte encodes no operation.
    pub open spec fn mnemonic(self) -> Seq<char> {
        match Opcode::decode(self.opcode) {
            Some(op) => op.name(),
            None => invalid_name(),
        }
    }

    /// The instruction in assembly text: the mnemonic and the three
    /// operands, each set off by one space.
    pub open spec fn assembly(self) -> Seq<char> {
        self.mnemonic() + seq![' '] + Operand::decode(self.dest).text() + seq![' ']
            + Operand::decode(self.op1).text() + seq![' '] + Operand::decode(self.op2).text()
    }

    /// Packing an instruction into a word and unpacking the word gives the
    /// instruction again, whatever its four bytes are.
    pub proof fn lemma_word_round_trip(self)
        ensures
            Instruction::of_word(self.word()) == self,
    {
        let a = self.opcode as u32;
        let b = self.dest as u32;
        let c = self.op1 as u32;
        let d = self.op2 as u32;
        assert(a < 0x100 && b < 0x100 && c < 0x100 && d < 0x100 ==> {
            let w = (a * 0x100_0000 + b * 0x1_0000 + c * 0x100 + d) as u32;
            &&& a * 0x100_0000 + b * 0x1_0000 + c * 0x100 + d <= 0xFFFF_FFFF
            &&& w / 0x100_0000 == a
            &&& w / 0x1_0000 % 0x100 == b
            &&& w / 0x100 % 0x100 == c
            &&& w % 0x100 == d
        }) by (bit_vector);
    }

    /// Unpacking a word and packing the instruction gives the word again.
    pub proof fn lemma_word_round_trip_back(word: u32)
        ensures
            Instruction::of_word(word).word() == word,
    {
        assert({
            &&& word / 0x100_0000 < 0x100
            &&& (word / 0x100_0000) * 0x100_0000 + (word / 0x1_0000 % 0x100) * 0x1_0000 + (word
                / 0x100 % 0x100) * 0x100 + word % 0x100 == word
        }) by (bit_vector);
    }

    /// Writing an instruction as four bytes and reading the bytes gives the
    /// instruction again, whatever its four bytes are.
    pub proof fn lemma_bytes_round_trip(self)
        ensures
            self.bytes().len() == 4,
            Instruction::of_bytes(self.bytes()) == self,
    {
    }

    /// Reading four bytes and writing the instruction gives the bytes again.
    pub proof fn lemma_bytes_round_trip_back(bytes: Seq<u8>)
        requires
            bytes.len() == 4,
        ensures
            Instruction::of_bytes(bytes).bytes() == bytes,
    {
        assert(Instruction::of_bytes(bytes).bytes() =~= bytes);
    }

    /// The four bytes of the instruction: opcode, `dest`, `op1`, `op2`.
    pub fn into_parts(self) -> (parts: (u8, u8, u8, u8))
        ensures
            parts == (self.opcode, self.dest, self.op1, self.op2),
    {
        <(u8, u8, u8, u8)>::from(self)
    }

    /// The text of one operand byte: its value in decimal and the letter of
    /// its mode, `i`, `o` or `r`.
    pub fn parameter_as_str(parameter: u8) -> (text: String)
        ensures
            text@ == Operand::decode(parameter).text(),
    {
        let mut text = String::new();
        Instruction::push_parameter(&mut text, parameter);
        text
    }

    fn push_parameter(out: &mut String, parameter: u8)
        ensures
            final(out)@ == old(out)@ + Operand::decode(parameter).text(),
    {
        proof {
            reveal_strlit("i");
            reveal_strlit("o");
            reveal_strlit("r");
        }
        let (value, suffix) = match Operand::from_byte(parameter) {
            Operand::Immediate(value) => (value, "i"),
            Operand::Offset(value) => (value, "o"),
            Operand::Register(value) => (value, "r"),
        };
        assert(suffix@ =~= seq![Operand::decode(parameter).suffix()]);
        push_decimal(out, value as usize);
        out.append(suffix);
        assert(out@ =~= old(out)@ + Operand::decode(parameter).text());
    }

    /// The instruction in assembly text. An opcode byte that encodes no
    /// operation is shown as `invalid`.
    pub fn as_assembly(&self) -> (text: String)
        ensures
            text@ == self.assembly(),
    {
        proof {
            reveal_strlit("invalid");
            reveal_strlit(" ");
        }
        let name = match Opcode::from_byte(self.opcode) {
            Some(op) => op.mnemonic(),
            None => "invalid",
        };
        assert(name@ =~= self.mnemonic());
        let mut text = String::new();
        text.append(name);
        text.append(" ");
        Instruction::push_parameter(&mut text, self.dest);
        text.append(" ");
        Instruction::push_parameter(&mut text, self.op1);
        text.append(" ");
        Instruction::push_parameter(&mut text, self.op2);
        assert(text@ =~= self.assembly());
        text
    }
}

impl From<[u8; 4]> for Instruction {
    fn from(bytes: [u8; 4]) -> (instruction: Instruction) {
        Instruction { opcode: bytes[0], dest: bytes[1], op1: bytes[2], op2: bytes[3] }
    }
}

impl FromSpecImpl<[u8; 4]> for Instruction {
    open spec fn obeys_from_spec() -> bool {
        true
    }

    open spec fn from_spec(bytes: [u8; 4]) -> Instruction {
        Instruction::of_bytes(bytes@)
    }
}

impl From<u32> for Instruction {
    fn from(value: u32) -> (instruction: Instruction) {
        proof {
            assert((value & 0xFF000000u32) >> 24u32 == value / 0x100_0000u32) by (bit_vector);
            assert((value & 0x00FF0000u32) >> 16u32 == value / 0x1_0000u32 % 0x100u32)
                by (bit_vector);
            assert((value & 0x0000FF00u32) >> 8u32 == value / 0x100u32 % 0x100u32)
                by (bit_vector);
            assert(value & 0x000000FFu32 == value % 0x100u32) by (bit_vector);
        }
        Instruction {
            opcode: ((value & 0xFF000000) >> 24) as u8,
            dest: ((value & 0x00FF0000) >> 16) as u8,
            op1: ((value & 0x0000FF00) >> 8) as u8,
            op2: (value & 0x000000FF) as u8,
        }
    }
}

impl FromSpecImpl<u32> for Instruction {
    open spec fn obeys_from_spec() -> bool {
        true
    }

    open spec fn from_spec(value: u32) -> Instruction {
        Instruction::of_word(value)
    }
}

impl From<Instruction> for u32 {
    fn from(instruction: Instruction) -> (word: u32) {
        let opcode = instruction.opcode;
        let dest = instruction.dest;
        let op1 = instruction.op1;
        let op2 = instruction.op2;
        proof {
            assert((opcode as u32) << 24u32 | (dest as u32) << 16u32 | (op1 as u32) << 8u32 | (
            op2 as u32) == (opcode as u32) * 0x100_0000u32 + (dest as u32) * 0x1_0000u32 + (
            op1 as u32) * 0x100u32 + (op2 as u32)) by (bit_vector);
        }
        (opcode as u32) << 24 | (dest as u32) << 16 | (op1 as u32) << 8 | (op2 as u32)
    }
}

impl FromSpecImpl<Instruction> for u32 {
    open spec fn obeys_from_spec() -> bool {
        true
    }

    open spec fn from_spec(instruction: Instruction) -> u32 {
        instruction.word()
    }
}

impl From<Instruction> for [u8; 4] {
    fn from(instruction: Instruction) -> (bytes: [u8; 4]) {
        let bytes = [instruction.opcode, instruction.dest, instruction.op1, instruction.op2];
        assert(bytes@ =~= instruction.bytes());
        bytes
    }
}

impl FromSpecImpl<Instruction> for [u8; 4] {
    open spec fn obeys_from_spec() -> bool {
        true
    }

    open spec fn from_spec(instruction: Instruction) -> [u8; 4] {
        [instruction.opcode, instruction.dest, instruction.op1, instruction.op2]
    }
}

impl From<Instruction> for (u8, u8, u8, u8) {
    fn from(instruction: Instruction) -> (parts: (u8, u8, u8, u8)) {
        (instruction.opcode, instruction.dest, instruction.op1, instruction.op2)
    }
}

impl FromSpecImpl<Instruction> for (u8, u8, u8, u8) {
    open spec fn obeys_from_spec() -> bool {
        true
    }

    open spec fn from_spec(instruction: Instruction) -> (u8, u8, u8, u8) {
        (instruction.opcode, instruction.dest, instruction.op1, instruction.op2)
    }
}

} // verus!
