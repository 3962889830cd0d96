//! What the assembler makes of the text that an instruction is written as.

use crate::assembly::{
    assemble_line, encode_operands, mnemonic_at, mode_flag, operand_byte, operand_token,
    operands_of, separator_at, token_at, ParseError,
};
use crate::instruction::{Instruction, Opcode, Operand};
use crate::text::{
    decimal, is_digit, is_letter, lemma_decimal_round_trip, lemma_leading_digits, unsigned,
};
use vstd::prelude::*;

verus! {

/// The byte that the assembler makes of the text of the operand byte
/// `byte`: the operand's value with the bits of its mode letter.
pub open spec fn rebuilt(byte: u8) -> u8 {
    match Operand::decode(byte) {
        Operand::Immediate(value) => 0x80u8 | value,
        Operand::Offset(value) => 0x40u8 | value,
        Operand::Register(value) => 0x10u8 | value,
    }
}

/// Whether an operand byte is the one that the assembler makes of its own
/// text. The bytes below 0x10, which read as immediates but lack the
/// immediate's top bit, and the bytes from 0x20 to 0x3F, which read as
/// registers but carry a bit that the register's text does not show, are
/// not.
pub open spec fn canonical(byte: u8) -> bool {
    byte >= 0x40 || (0x10 <= byte && byte < 0x20)
}

/// The instruction that the assembler makes of the text of `instruction`.
pub open spec fn reassembled(instruction: Instruction) -> Instruction {
    if instruction.opcode == 0 {
        Instruction { opcode: 0, dest: 0, op1: 0, op2: 0 }
    } else {
        Instruction {
            opcode: instruction.opcode,
            dest: rebuilt(instruction.dest),
            op1: rebuilt(instruction.op1),
            op2: rebuilt(instruction.op2),
        }
    }
}

/// An operand byte is canonical exactly where rebuilding it changes
/// nothing.
pub proof fn lemma_canonical(byte: u8)
    ensures
        canonical(byte) <==> rebuilt(byte) == byte,
{
    assert(byte >= 0x80 ==> 0x80u8 | ((byte - 0x80u8) as u8) == byte) by (bit_vector);
    assert(0x40 <= byte < 0x80 ==> 0x40u8 | ((byte - 0x40u8) as u8) == byte) by (bit_vector);
    assert(0x10 <= byte < 0x20 ==> 0x10u8 | (byte % 0x10u8) == byte) by (bit_vector);
    assert(0x20 <= byte < 0x40 ==> 0x10u8 | (byte % 0x10u8) != byte) by (bit_vector);
    assert(byte < 0x10 ==> 0x80u8 | byte != byte) by (bit_vector);
}

/// The text of an operand byte is read back as one operand: its digits
/// are the operand's value, its letter is the operand's mode, and the
/// byte made of them is the rebuilt byte.
proof fn lemma_operand_text(line: Seq<char>, column: int, byte: u8)
    requires
        0 <= column <= line.len(),
        Operand::decode(byte).text().is_prefix_of(line.skip(column)),
    ensures
        token_at(line, column) matches Some(token) && {
            &&& token.end == column + Operand::decode(byte).text().len()
            &&& operand_byte(token.number, token.mode) == Some(rebuilt(byte))
        },
        Operand::decode(byte).text().len() >= 2,
{
    let operand = Operand::decode(byte);
    let value = operand.value() as nat;
    let digits = decimal(value);
    let text = operand.text();
    let rest = line.skip(column);
    let n = digits.len() as int;
    lemma_decimal_round_trip(value);
    Operand::lemma_decode_bounds(byte);
    assert(text.len() == n + 1);
    assert(text =~= rest.subrange(0, n + 1));
    assert forall|i: int| 0 <= i < n implies is_digit(#[trigger] rest[i]) by {
        assert(rest[i] == text[i]);
        assert(text[i] == digits[i]);
    }
    assert(rest[n] == text[n]);
    assert(text[n] == operand.suffix());
    assert(!is_digit(rest[n]) && is_letter(rest[n]));
    lemma_leading_digits(rest, n);
    assert(rest.take(n) =~= digits);
    assert(unsigned(digits, 255) == Some(value));
    let mode = seq![rest[n]];
    assert(mode_flag(mode) == Some(
        match operand {
            Operand::Immediate(_) => 0x80u8,
            Operand::Offset(_) => 0x40u8,
            Operand::Register(_) => 0x10u8,
        },
    )) by {
        assert(mode[0] == operand.suffix());
        assert(seq!['i'][0] == 'i' && seq!['r'][0] == 'r' && seq!['o'][0] == 'o');
        if operand.suffix() == 'i' {
            assert(mode =~= seq!['i']);
        } else if operand.suffix() == 'r' {
            assert(mode =~= seq!['r']);
        } else {
            assert(mode =~= seq!['o']);
        }
    }
    assert(operand_token(rest) == Some((rest.skip(n + 1), (rest.take(n), mode))));
}

/// The text of an instruction with a known opcode assembles to the
/// instruction with each operand byte rebuilt, and to four zero bytes for
/// `hlt`.
pub proof fn lemma_reassembly(instruction: Instruction)
    requires
        Opcode::decode(instruction.opcode) is Some,
    ensures
        assemble_line(instruction.assembly()) == Ok::<Instruction, ParseError>(
            reassembled(instruction),
        ),
{
    let op = Opcode::decode(instruction.opcode).unwrap();
    Opcode::lemma_distinct(op, op);
    let name = op.name();
    let first = Operand::decode(instruction.dest).text();
    let second = Operand::decode(instruction.op1).text();
    let third = Operand::decode(instruction.op2).text();
    let line = instruction.assembly();
    assert(line == name + seq![' '] + first + seq![' '] + second + seq![' '] + third);
    assert(line.take(3) =~= name);
    assert(mnemonic_at(line) == Some(op));
    if op != Opcode::Halt {
        let c1 = 4int;
        let c2 = c1 + first.len() + 1;
        let c3 = c2 + second.len() + 1;
        assert(line.len() == c3 + third.len());
        assert(first =~= line.skip(c1).subrange(0, first.len() as int));
        assert(second =~= line.skip(c2).subrange(0, second.len() as int));
        assert(third =~= line.skip(c3).subrange(0, third.len() as int));
        lemma_operand_text(line, c1, instruction.dest);
        lemma_operand_text(line, c2, instruction.op1);
        lemma_operand_text(line, c3, instruction.op2);
        assert(line[3] == ' ');
        assert(line[c2 - 1] == ' ');
        assert(line[c3 - 1] == ' ');
        assert(separator_at(line, 3));
        assert(separator_at(line, c2 - 1));
        assert(separator_at(line, c3 - 1));
        let operands = operands_of(line).unwrap();
        assert(operands.third_at == c3);
        assert(encode_operands(op.code(), operands) == Ok::<Instruction, ParseError>(
            reassembled(instruction),
        ));
    }
}

/// Disassembling an assembled instruction and assembling the text again
/// gives the same instruction, for every line whose instruction is `hlt`
/// or has canonical operand bytes only.
pub proof fn lemma_reassembly_is_idempotent(line: Seq<char>)
    requires
        assemble_line(line) matches Ok(instruction) && (instruction.opcode == 0 || (canonical(
            instruction.dest,
        ) && canonical(instruction.op1) && canonical(instruction.op2))),
    ensures
        assemble_line(assemble_line(line).unwrap().assembly()) == assemble_line(line),
{
    let instruction = assemble_line(line).unwrap();
    let op = mnemonic_at(line).unwrap();
    Opcode::lemma_distinct(op, op);
    if op != Opcode::Halt {
        let operands = operands_of(line).unwrap();
        assert(instruction.opcode == op.code());
    }
    lemma_reassembly(instruction);
    lemma_canonical(instruction.dest);
    lemma_canonical(instruction.op1);
    lemma_canonical(instruction.op2);
}

} // verus!
