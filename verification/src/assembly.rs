//! The assembler: one line of mnemonic text to one four-byte instruction.
//!
//! A line is a mnemonic, alone for `hlt`, or followed by two operands and
//! an optional third, each set off by one space. An operand is a run of
//! digits and an optional mode letter `i`, `r` or `o`; without a letter the
//! mode is `i`.

use crate::instruction::{Instruction, Opcode};
use crate::parser::{
    first_match, literal, one_of, one_or_more, optional, pair, predicate, Literal, Mapped, OneOf,
    Optional, Pair, ParseResult, Parser, Transform,
};
use crate::text::{
    first_line_length, is_digit_char, is_letter, is_letter_char, leading_digits,
    lemma_first_line_bound, lemma_leading_digits, lemma_leading_digits_bounds, parse_decimal,
    same_text, split_line, trim, trimmed, unsigned,
};
use vstd::prelude::*;

verus! {

/// The ways in which a line can fail to be an instruction.
#[derive(Debug, PartialEq, Eq, Clone, Copy, Structural)]
pub enum Mismatch {
    /// The line does not start with a mnemonic of the table.
    UnknownOpcode,
    /// An operand was due and the space that sets it off is not there.
    MissingOperand,
    /// An operand does not start with a digit, its number is above 255, or
    /// its mode letter is none of `i`, `r`, `o`.
    MalformedOperand,
}

/// Why a line was refused, and where: `column` counts the characters of the
/// line that stand before the text that could not be read.
#[derive(Debug, PartialEq, Eq, Clone, Copy, Structural)]
pub struct ParseError {
    pub kind: Mismatch,
    pub column: usize,
}

/// Why a program text was refused: the mismatch, the line on which it was
/// found, counted from one, and the column in that line once the white
/// space around the line is taken off.
#[derive(Debug, PartialEq, Eq, Clone, Copy, Structural)]
pub struct AssemblyError {
    pub line: usize,
    pub kind: Mismatch,
    pub column: usize,
}

/// The operation whose mnemonic stands at the start of `input`.
pub open spec fn mnemonic_at(input: Seq<char>) -> Option<Opcode> {
    if input.len() >= 3 {
        Opcode::named(input.take(3))
    } else {
        None
    }
}

/// What the mnemonic parser yields: the mnemonic at the start of the input,
/// and the input after it.
pub open spec fn opcode_token(input: Seq<char>) -> Option<(Seq<char>, Seq<char>)> {
    match mnemonic_at(input) {
        Some(op) => Some((input.skip(3), op.name())),
        None => None,
    }
}

/// What the operand parser yields: the digits at the start of the input and
/// the mode letter after them, `i` where no letter follows.
pub open spec fn operand_token(input: Seq<char>) -> Option<
    (Seq<char>, (Seq<char>, Seq<char>)),
> {
    let n = leading_digits(input) as int;
    if n == 0 {
        None
    } else if n < input.len() && is_letter(input[n]) {
        Some((input.skip(n + 1), (input.take(n), seq![input[n]])))
    } else {
        Some((input.skip(n), (input.take(n), seq!['i'])))
    }
}

/// The bits that a mode letter sets in an operand byte.
pub open spec fn mode_flag(mode: Seq<char>) -> Option<u8> {
    if mode == seq!['i'] {
        Some(0x80u8)
    } else if mode == seq!['r'] {
        Some(0x10u8)
    } else if mode == seq!['o'] {
        Some(0x40u8)
    } else {
        None
    }
}

/// The operand byte for a number and a mode: the number, which must be a
/// run of digits worth at most 255, with the mode's bits set by bitwise or.
/// The number is not held to the width of the mode's value: its high bits
/// run into the mode bits.
pub open spec fn operand_byte(number: Seq<char>, mode: Seq<char>) -> Option<u8> {
    match (unsigned(number, 255), mode_flag(mode)) {
        (Some(value), Some(flag)) => Some(flag | (value as u8)),
        _ => None,
    }
}

/// Whether a space stands at `column` of `line`.
pub open spec fn separator_at(line: Seq<char>, column: int) -> bool {
    0 <= column < line.len() && line[column] == ' '
}

/// An operand as it stands in a line: its digits, its mode letter, and the
/// column at which the text after it starts.
pub struct Token {
    pub number: Seq<char>,
    pub mode: Seq<char>,
    pub end: int,
}

/// The operand that starts at `column` of `line`.
pub open spec fn token_at(line: Seq<char>, column: int) -> Option<Token> {
    match operand_token(line.skip(column)) {
        Some((rest, (number, mode))) => Some(
            Token { number, mode, end: line.len() - rest.len() },
        ),
        None => None,
    }
}

/// The operands of a line as they stand in its text: the first, which
/// starts at column 4, the second, which starts one column after the end
/// of the first, and the third, if there is one, with the column at which
/// it is looked for.
pub struct Operands {
    pub first: Token,
    pub second: Token,
    pub third: Option<Token>,
    pub third_at: int,
}

/// The refusal of a line for `kind` at `column`.
pub open spec fn refusal(kind: Mismatch, column: int) -> ParseError {
    ParseError { kind, column: column as usize }
}

/// The operands that follow the mnemonic of a line: a space and an
/// operand, twice; then, if a space follows, it is passed over; then a
/// third operand if one stands there. What follows is not read.
pub open spec fn operands_of(line: Seq<char>) -> Result<Operands, ParseError> {
    if !separator_at(line, 3) {
        Err(refusal(Mismatch::MissingOperand, 3))
    } else {
        match token_at(line, 4) {
            None => Err(refusal(Mismatch::MalformedOperand, 4)),
            Some(first) => if !separator_at(line, first.end) {
                Err(refusal(Mismatch::MissingOperand, first.end))
            } else {
                match token_at(line, first.end + 1) {
                    None => Err(refusal(Mismatch::MalformedOperand, first.end + 1)),
                    Some(second) => {
                        let third_at = if separator_at(line, second.end) {
                            second.end + 1
                        } else {
                            second.end
                        };
                        Ok(Operands { first, second, third: token_at(line, third_at), third_at })
                    },
                }
            },
        }
    }
}

/// The instruction for an opcode byte and the operands of a line. The
/// operands are turned into bytes first to last, and the first that is
/// malformed refuses the line. Without a third operand `op2` is zero.
pub open spec fn encode_operands(opcode: u8, operands: Operands) -> Result<
    Instruction,
    ParseError,
> {
    match operand_byte(operands.first.number, operands.first.mode) {
        None => Err(refusal(Mismatch::MalformedOperand, 4)),
        Some(dest) => match operand_byte(operands.second.number, operands.second.mode) {
            None => Err(refusal(Mismatch::MalformedOperand, operands.first.end + 1)),
            Some(op1) => match operands.third {
                None => Ok(Instruction { opcode, dest, op1, op2: 0 }),
                Some(token) => match operand_byte(token.number, token.mode) {
                    None => Err(refusal(Mismatch::MalformedOperand, operands.third_at)),
                    Some(op2) => Ok(Instruction { opcode, dest, op1, op2 }),
                },
            },
        },
    }
}

/// The instruction that a line of assembly text stands for, or why and
/// where the line is refused.
///
/// The line must start with a mnemonic. After `hlt` nothing more is read.
/// After any other mnemonic the operands are read, and only when all of
/// them have been read are they turned into bytes.
pub open spec fn assemble_line(line: Seq<char>) -> Result<Instruction, ParseError> {
    match mnemonic_at(line) {
        None => Err(refusal(Mismatch::UnknownOpcode, 0)),
        Some(op) => if op == Opcode::Halt {
            Ok(Instruction { opcode: 0, dest: 0, op1: 0, op2: 0 })
        } else {
            match operands_of(line) {
                Err(error) => Err(error),
                Ok(operands) => encode_operands(op.code(), operands),
            }
        },
    }
}

/// The instructions that a program text stands for, where its first line
/// has the number `line`. The text is read line by line: the white space
/// around a line is taken off, a line that is then empty is passed over,
/// and every other line must be an instruction. The first line that is
/// refused refuses the text.
pub open spec fn assemble_from(text: Seq<char>, line: nat) -> Result<
    Seq<Instruction>,
    AssemblyError,
>
    decreases text.len(),
{
    let n = first_line_length(text) as int;
    let here = trimmed(text.take(n));
    let head: Result<Seq<Instruction>, AssemblyError> = if here.len() == 0 {
        Ok(Seq::empty())
    } else {
        match assemble_line(here) {
            Ok(instruction) => Ok(seq![instruction]),
            Err(error) => Err(
                AssemblyError { line: line as usize, kind: error.kind, column: error.column },
            ),
        }
    };
    match head {
        Err(error) => Err(error),
        Ok(first) => if 0 <= n < text.len() {
            match assemble_from(text.skip(n + 1), line + 1) {
                Ok(rest) => Ok(first + rest),
                Err(error) => Err(error),
            }
        } else {
            Ok(first)
        },
    }
}

/// The instructions that a program text stands for.
pub open spec fn assemble_program(text: Seq<char>) -> Result<Seq<Instruction>, AssemblyError> {
    assemble_from(text, 1)
}

/// What is left to assemble after `done`: the instructions of `rest` come
/// after those already found.
pub open spec fn continued(
    done: Seq<Instruction>,
    rest: Result<Seq<Instruction>, AssemblyError>,
) -> Result<Seq<Instruction>, AssemblyError> {
    match rest {
        Ok(more) => Ok(done + more),
        Err(error) => Err(error),
    }
}

/// Parses a run of one or more digits.
pub struct Number;

impl Parser<String> for Number {
    open spec fn spec_parse(&self, input: Seq<char>) -> Option<(Seq<char>, Seq<char>)> {
        let n = leading_digits(input) as int;
        if n > 0 {
            Some((input.skip(n), input.take(n)))
        } else {
            None
        }
    }

    proof fn lemma_remainder(&self, input: Seq<char>) {
        lemma_leading_digits_bounds(input);
    }

    fn parse<'a>(&self, input: &'a str) -> (result: ParseResult<'a, String>) {
        let result = one_or_more(input, is_digit_char);
        proof {
            if let Ok((_, matched)) = &result {
                lemma_leading_digits(input@, matched@.len() as int);
            } else {
                lemma_leading_digits(input@, 0);
            }
        }
        result
    }
}

/// Parses one letter.
pub struct Postfix;

impl Parser<String> for Postfix {
    open spec fn spec_parse(&self, input: Seq<char>) -> Option<(Seq<char>, Seq<char>)> {
        if input.len() > 0 && is_letter(input[0]) {
            Some((input.skip(1), input.take(1)))
        } else {
            None
        }
    }

    proof fn lemma_remainder(&self, input: Seq<char>) {
    }

    fn parse<'a>(&self, input: &'a str) -> (result: ParseResult<'a, String>) {
        predicate(input, is_letter_char)
    }
}

/// Gives an operand without a mode letter the mode `i`.
pub struct DefaultMode;

impl Transform for DefaultMode {
    type Input = (String, Option<String>);

    type Output = (String, String);

    open spec fn spec_apply(&self, input: (Seq<char>, Option<Seq<char>>)) -> (
        Seq<char>,
        Seq<char>,
    ) {
        match input.1 {
            Some(letter) => (input.0, letter),
            None => (input.0, seq!['i']),
        }
    }

    fn apply(&self, input: (String, Option<String>)) -> (output: (String, String)) {
        let (number, mode) = input;
        let mode = match mode {
            Some(letter) => letter,
            None => {
                proof {
                    reveal_strlit("i");
                }
                assert("i"@ =~= seq!['i']);
                "i".to_owned()
            },
        };
        (number, mode)
    }
}

/// The parser of mnemonics: one literal for each operation of the table.
pub type OpcodeParser = OneOf<Literal>;

/// The parser of operands.
pub type ValueParser = Mapped<Pair<Number, Optional<Postfix>>, DefaultMode>;

proof fn lemma_mnemonics(parsers: Seq<Literal>, input: Seq<char>, from: int)
    requires
        parsers.len() == Opcode::table().len(),
        forall|i: int|
            0 <= i < parsers.len() ==> (#[trigger] parsers[i]).expected@
                == Opcode::table()[i].name(),
        0 <= from <= parsers.len(),
    ensures
        first_match(parsers, input, from) == if input.len() >= 3 && exists|j: int|
            from <= j < parsers.len() && #[trigger] Opcode::table()[j].name() == input.take(3) {
            Some((input.skip(3), input.take(3)))
        } else {
            None
        },
    decreases parsers.len() - from,
{
    if from < parsers.len() {
        lemma_mnemonics(parsers, input, from + 1);
        let name = Opcode::table()[from].name();
        Opcode::lemma_distinct(Opcode::table()[from], Opcode::table()[from]);
        assert(parsers[from].expected@ == name);
        if name.is_prefix_of(input) {
            assert(name =~= input.take(3));
        } else {
            assert(!(input.len() >= 3 && name == input.take(3)));
        }
    }
}

/// The parser that matches a mnemonic of the table and yields it.
pub fn opcode() -> (parser: OpcodeParser)
    ensures
        forall|input: Seq<char>| #[trigger] parser.spec_parse(input) == opcode_token(input),
{
    let table = Opcode::all();
    let mut parsers: Vec<Literal> = Vec::new();
    let mut i: usize = 0;
    while i < 20
        invariant
            i <= 20,
            table@ == Opcode::table(),
            parsers@.len() == i,
            forall|k: int|
                0 <= k < i ==> (#[trigger] parsers@[k]).expected@ == Opcode::table()[k].name(),
        decreases 20 - i,
    {
        parsers.push(literal(table[i].mnemonic()));
        i += 1;
    }
    let parser = one_of(parsers);
    proof {
        assert forall|input: Seq<char>| #[trigger]
            parser.spec_parse(input) == opcode_token(input) by {
            lemma_mnemonics(parser.parsers@, input, 0);
            if input.len() >= 3 {
                if exists|op: Opcode| op.name() == input.take(3) {
                    let op = choose|op: Opcode| op.name() == input.take(3);
                    Opcode::lemma_distinct(op, op);
                    let j = choose|j: int|
                        0 <= j < Opcode::table().len() && Opcode::table()[j] == op;
                    assert(Opcode::table()[j].name() == input.take(3));
                }
            }
        }
    }
    parser
}

/// The parser that matches an operand and yields its digits and its mode
/// letter, `i` where the operand has none.
pub fn value() -> (parser: ValueParser)
    ensures
        forall|input: Seq<char>| #[trigger] parser.spec_parse(input) == operand_token(input),
{
    let parser = crate::parser::map(pair(Number, optional(Postfix)), DefaultMode);
    proof {
        assert forall|input: Seq<char>| #[trigger]
            parser.spec_parse(input) == operand_token(input) by {
            lemma_leading_digits_bounds(input);
            let n = leading_digits(input) as int;
            if n > 0 {
                let middle = input.skip(n);
                if n < input.len() {
                    assert(middle[0] == input[n]);
                    assert(middle.skip(1) =~= input.skip(n + 1));
                    assert(middle.take(1) =~= seq![input[n]]);
                }
            }
        }
    }
    parser
}

/// The opcode byte of a mnemonic. Fails, with `UnknownOpcode`, exactly on a
/// text that is no mnemonic of the table.
pub fn parse_opcode(opcode: &str) -> (result: Result<u8, Mismatch>)
    ensures
        match result {
            Ok(byte) => Opcode::named(opcode@) matches Some(op) && op.code() == byte,
            Err(kind) => kind == Mismatch::UnknownOpcode && Opcode::named(opcode@) is None,
        },
{
    let table = Opcode::all();
    let mut i: usize = 0;
    while i < 20
        invariant
            i <= 20,
            table@ == Opcode::table(),
            forall|k: int| 0 <= k < i ==> (#[trigger] Opcode::table()[k]).name() != opcode@,
        decreases 20 - i,
    {
        if same_text(opcode, table[i].mnemonic()) {
            proof {
                Opcode::lemma_distinct(table[i as int], table[i as int]);
            }
            return Ok(table[i].byte());
        }
        i += 1;
    }
    proof {
        assert forall|op: Opcode| op.name() != opcode@ by {
            Opcode::lemma_distinct(op, op);
            let j = choose|j: int| 0 <= j < Opcode::table().len() && Opcode::table()[j] == op;
            assert(Opcode::table()[j].name() != opcode@);
        }
    }
    Err(Mismatch::UnknownOpcode)
}

/// The operand byte for a number and a mode letter. Fails, with
/// `MalformedOperand`, exactly where the number is not a run of digits worth
/// at most 255 or the mode is none of `i`, `r`, `o`.
pub fn parse_value(value_number: &str, value_mode: &str) -> (result: Result<u8, Mismatch>)
    ensures
        match result {
            Ok(byte) => operand_byte(value_number@, value_mode@) == Some(byte),
            Err(kind) => kind == Mismatch::MalformedOperand && operand_byte(
                value_number@,
                value_mode@,
            ) is None,
        },
{
    let number: u8 = match parse_decimal(value_number) {
        Some(number) if number <= 255 => number as u8,
        _ => {
            return Err(Mismatch::MalformedOperand);
        },
    };
    proof {
        reveal_strlit("i");
        reveal_strlit("r");
        reveal_strlit("o");
        assert("i"@ =~= seq!['i']);
        assert("r"@ =~= seq!['r']);
        assert("o"@ =~= seq!['o']);
    }
    let mode_bits: u8 = if same_text(value_mode, "i") {
        0b1000_0000
    } else if same_text(value_mode, "r") {
        0b0001_0000
    } else if same_text(value_mode, "o") {
        0b0100_0000
    } else {
        return Err(Mismatch::MalformedOperand);
    };
    Ok(mode_bits | number)
}

/// Skipping twice is skipping once by the sum.
proof fn lemma_skip_twice(line: Seq<char>, a: int, b: int)
    requires
        0 <= a,
        0 <= b,
        a + b <= line.len(),
    ensures
        line.skip(a).skip(b) == line.skip(a + b),
{
    assert(line.skip(a).skip(b) =~= line.skip(a + b));
}

/// A one-space text starts what is left of a line at `column` exactly
/// where a space stands at that column.
proof fn lemma_separator(line: Seq<char>, column: int)
    requires
        0 <= column <= line.len(),
    ensures
        seq![' '].is_prefix_of(line.skip(column)) <==> separator_at(line, column),
{
    let rest = line.skip(column);
    if separator_at(line, column) {
        assert(seq![' '] =~= rest.subrange(0, 1));
    }
    if seq![' '].is_prefix_of(rest) {
        assert(rest.subrange(0, 1)[0] == ' ');
    }
}

/// The operands of a line as the parsers yield them, with the columns at
/// which the second and the third were looked for.
struct ParsedOperands {
    first: (String, String),
    second: (String, String),
    second_column: usize,
    third: Option<(String, String)>,
    third_column: usize,
}

impl ParsedOperands {
    spec fn agrees(self, operands: Operands) -> bool {
        &&& self.first.0@ == operands.first.number
        &&& self.first.1@ == operands.first.mode
        &&& self.second.0@ == operands.second.number
        &&& self.second.1@ == operands.second.mode
        &&& self.second_column == operands.first.end + 1
        &&& self.third_column == operands.third_at
        &&& match self.third {
            Some(third) => operands.third matches Some(token) && third.0@ == token.number
                && third.1@ == token.mode,
            None => operands.third is None,
        }
    }
}

/// Passes over one space. Fails where the text does not start with one.
fn skip_separator<'a>(rest: &'a str) -> (after: Option<&'a str>)
    ensures
        match after {
            Some(after) => rest@.len() > 0 && rest@[0] == ' ' && after@ == rest@.skip(1),
            None => rest@.len() == 0 || rest@[0] != ' ',
        },
{
    proof {
        reveal_strlit(" ");
        assert(" "@ =~= seq![' ']);
        lemma_separator(rest@, 0);
        assert(rest@.skip(0) =~= rest@);
    }
    match literal(" ").parse(rest) {
        Ok((after, _)) => Some(after),
        Err(_) => None,
    }
}

/// Reads one operand. Fails where the text does not start with a digit.
fn read_operand<'a>(rest: &'a str) -> (found: Option<(&'a str, (String, String))>)
    ensures
        match found {
            Some((after, token)) => operand_token(rest@) == Some(
                (after@, (token.0@, token.1@)),
            ) && after@.is_suffix_of(rest@),
            None => operand_token(rest@) is None,
        },
{
    let operand = value();
    proof {
        operand.lemma_remainder(rest@);
    }
    match operand.parse(rest) {
        Ok(found) => Some(found),
        Err(_) => None,
    }
}

/// What is left of a line from `column` on, with one column more taken
/// off.
proof fn lemma_step(line: Seq<char>, column: int, rest: Seq<char>, after: Seq<char>)
    requires
        0 <= column < line.len(),
        rest == line.skip(column),
        after == rest.skip(1),
    ensures
        after == line.skip(column + 1),
        rest[0] == line[column],
{
    assert(after =~= line.skip(column + 1));
}

/// What is left of a line after an operand that starts at `column`.
proof fn lemma_token(line: Seq<char>, column: int, after: Seq<char>)
    requires
        0 <= column <= line.len(),
        after.is_suffix_of(line.skip(column)),
    ensures
        after == line.skip(line.len() - after.len()),
        column <= line.len() - after.len() <= line.len(),
{
    assert(after =~= line.skip(line.len() - after.len()));
}

/// Reads the operands of a line whose mnemonic has been read.
fn parse_operands(rest: &str, total: usize, Ghost(line): Ghost<Seq<char>>) -> (result: Result<
    ParsedOperands,
    ParseError,
>)
    requires
        total == line.len(),
        3 <= total,
        rest@ == line.skip(3),
    ensures
        match result {
            Ok(parsed) => operands_of(line) matches Ok(operands) && parsed.agrees(operands),
            Err(error) => operands_of(line) == Err::<Operands, ParseError>(error),
        },
{
    let rest = match skip_separator(rest) {
        Some(rest) => rest,
        None => {
            return Err(ParseError { kind: Mismatch::MissingOperand, column: 3 });
        },
    };
    proof {
        lemma_step(line, 3, line.skip(3), rest@);
    }
    let (rest, first) = match read_operand(rest) {
        Some(found) => found,
        None => {
            return Err(ParseError { kind: Mismatch::MalformedOperand, column: 4 });
        },
    };
    proof {
        lemma_token(line, 4, rest@);
    }
    let first_end = total - rest.unicode_len();
    let after = match skip_separator(rest) {
        Some(after) => after,
        None => {
            return Err(ParseError { kind: Mismatch::MissingOperand, column: first_end });
        },
    };
    proof {
        lemma_step(line, first_end as int, rest@, after@);
    }
    let second_column = first_end + 1;
    let (rest, second) = match read_operand(after) {
        Some(found) => found,
        None => {
            return Err(ParseError { kind: Mismatch::MalformedOperand, column: second_column });
        },
    };
    proof {
        lemma_token(line, second_column as int, rest@);
    }
    let ghost second_end = line.len() - rest@.len();
    let rest = match skip_separator(rest) {
        Some(after) => {
            proof {
                lemma_step(line, second_end, rest@, after@);
            }
            after
        },
        None => rest,
    };
    let third_column = total - rest.unicode_len();
    let third = match read_operand(rest) {
        Some((_, third)) => Some(third),
        None => None,
    };
    Ok(ParsedOperands { first, second, second_column, third, third_column })
}

/// Turns the operands of a line into the bytes of its instruction.
fn encode(opcode: u8, parsed: ParsedOperands, Ghost(operands): Ghost<Operands>) -> (result: Result<
    [u8; 4],
    ParseError,
>)
    requires
        parsed.agrees(operands),
    ensures
        match result {
            Ok(bytes) => encode_operands(opcode, operands) == Ok::<Instruction, ParseError>(
                Instruction::of_bytes(bytes@),
            ),
            Err(error) => encode_operands(opcode, operands) == Err::<Instruction, ParseError>(
                error,
            ),
        },
{
    let dest = match parse_value(parsed.first.0.as_str(), parsed.first.1.as_str()) {
        Ok(dest) => dest,
        Err(kind) => {
            return Err(ParseError { kind, column: 4 });
        },
    };
    let op1 = match parse_value(parsed.second.0.as_str(), parsed.second.1.as_str()) {
        Ok(op1) => op1,
        Err(kind) => {
            return Err(ParseError { kind, column: parsed.second_column });
        },
    };
    let op2 = match &parsed.third {
        Some(third) => match parse_value(third.0.as_str(), third.1.as_str()) {
            Ok(op2) => op2,
            Err(kind) => {
                return Err(ParseError { kind, column: parsed.third_column });
            },
        },
        None => 0,
    };
    let bytes = [opcode, dest, op1, op2];
    assert(Instruction::of_bytes(bytes@) == Instruction { opcode, dest, op1, op2 });
    Ok(bytes)
}

/// Assembles one line of text into the four bytes of an instruction: the
/// opcode, `dest`, `op1` and `op2`. The line is refused, with the kind of
/// mismatch and the column of the text that could not be read, exactly
/// where [`assemble_line`] refuses it.
pub fn parse_instruction(instruction: &str) -> (result: Result<[u8; 4], ParseError>)
    ensures
        match result {
            Ok(bytes) => assemble_line(instruction@) == Ok::<Instruction, ParseError>(
                Instruction::of_bytes(bytes@),
            ),
            Err(error) => assemble_line(instruction@) == Err::<Instruction, ParseError>(error),
        },
{
    let (rest, name) = match opcode().parse(instruction) {
        Ok(found) => found,
        Err(_) => {
            return Err(ParseError { kind: Mismatch::UnknownOpcode, column: 0 });
        },
    };
    let ghost op = mnemonic_at(instruction@).unwrap();
    proof {
        Opcode::lemma_distinct(op, op);
    }
    let opcode = match parse_opcode(name.as_str()) {
        Ok(opcode) => opcode,
        Err(kind) => {
            return Err(ParseError { kind, column: 0 });
        },
    };
    if opcode == 0 {
        let bytes = [opcode, 0, 0, 0];
        assert(Instruction::of_bytes(bytes@) == Instruction { opcode: 0, dest: 0, op1: 0, op2: 0 });
        return Ok(bytes);
    }
    let parsed = match parse_operands(rest, instruction.unicode_len(), Ghost(instruction@)) {
        Ok(parsed) => parsed,
        Err(error) => {
            return Err(error);
        },
    };
    encode(opcode, parsed, Ghost(operands_of(instruction@).unwrap()))
}

/// Assembles a program text, one instruction to a line. Blank lines are
/// passed over, and white space around a line does not count. The text is
/// refused, with the line and column of the first mismatch, exactly where
/// [`assemble_program`] refuses it.
pub fn parse_program(text: &str) -> (result: Result<Vec<Instruction>, AssemblyError>)
    ensures
        match result {
            Ok(program) => assemble_program(text@) == Ok::<Seq<Instruction>, AssemblyError>(
                program@,
            ),
            Err(error) => assemble_program(text@) == Err::<Seq<Instruction>, AssemblyError>(
                error,
            ),
        },
{
    let mut program: Vec<Instruction> = Vec::new();
    let mut rest: &str = text;
    let mut number: u128 = 1;
    let total = text.unicode_len();
    proof {
        assert(program@ + Seq::<Instruction>::empty() =~= program@);
        assert(Seq::<Instruction>::empty() + Seq::<Instruction>::empty()
            =~= Seq::<Instruction>::empty());
    }
    loop
        invariant
            1 <= number,
            total == text@.len(),
            number + rest@.len() <= total + 1,
            assemble_program(text@) == continued(program@, assemble_from(rest@, number as nat)),
        decreases rest@.len(),
    {
        let ghost before = program@;
        let ghost n = first_line_length(rest@) as int;
        proof {
            lemma_first_line_bound(rest@);
        }
        let (line, after) = split_line(rest);
        let line = trim(line);
        if line.unicode_len() > 0 {
            match parse_instruction(line) {
                Ok(bytes) => {
                    program.push(Instruction::from(bytes));
                },
                Err(error) => {
                    return Err(
                        AssemblyError {
                            line: number as usize,
                            kind: error.kind,
                            column: error.column,
                        },
                    );
                },
            }
        }
        match after {
            Some(next) => {
                proof {
                    let tail = assemble_from(next@, (number + 1) as nat);
                    if let Ok(more) = tail {
                        if line@.len() > 0 {
                            assert(before + (seq![program@.last()] + more) =~= program@ + more);
                        } else {
                            assert(before + (Seq::<Instruction>::empty() + more) =~= program@
                                + more);
                        }
                    }
                }
                rest = next;
                number = number + 1;
            },
            None => {
                proof {
                    if line@.len() > 0 {
                        assert(before + seq![program@.last()] =~= program@);
                    } else {
                        assert(before + Seq::<Instruction>::empty() =~= program@);
                    }
                }
                return Ok(program);
            },
        }
    }
}

} // verus!
