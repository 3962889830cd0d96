//! The execution engine: the machine's state, the meaning of each
//! instruction, and the fetch-decode-execute loop.
//!
//! The console is part of the machine: lines of input are queued with
//! [`Cpu::push_input`] and read by `sti`, and `sto` writes to a buffer that
//! [`Cpu::take_output`] empties.

use crate::assembly::{assemble_program, parse_program, AssemblyError};
use crate::instruction::{Instruction, Opcode, Operand};
use crate::text::{decimal, parse_decimal, push_decimal, unsigned};
use vstd::prelude::*;

verus! {

/// The number of registers.
pub const REGISTER_COUNT: usize = 16;

/// The number of words of memory.
pub const MEMORY_SIZE: usize = 65536;

/// Whether the machine runs.
#[derive(Debug, PartialEq, Eq, Clone, Copy, Structural)]
pub enum State {
    /// Not started: the state of a new machine and of one just loaded.
    Suspended,
    /// Started by `run`.
    Running,
    /// Stopped by a `hlt` instruction.
    Halting,
}

/// The errors that end a run.
#[derive(Debug, PartialEq, Eq, Clone, Copy, Structural)]
pub enum Fault {
    /// The opcode byte encodes no operation.
    UnknownOpcode,
    /// A division or a remainder by zero.
    ArithmeticFault,
    /// A register index, a memory address or the program counter left its
    /// range.
    OutOfBounds,
    /// `sti` found no line of input, or a line that is no unsigned number.
    IoFailure,
}

/// The machine as a mathematical value.
pub struct Machine {
    pub state: State,
    /// The index in `rom` of the next instruction.
    pub pc: usize,
    pub registers: Seq<usize>,
    pub memory: Seq<usize>,
    /// The loaded program.
    pub rom: Seq<Instruction>,
    /// The lines of console input not yet read, oldest first.
    pub input: Seq<Seq<char>>,
    /// The console output not yet taken.
    pub output: Seq<char>,
}

/// One for a relation that holds, zero for one that does not.
pub open spec fn truth(holds: bool) -> usize {
    if holds {
        1
    } else {
        0
    }
}

impl Machine {
    /// A new machine: nothing loaded, not started, every register and
    /// every word of memory zero, the console empty.
    pub open spec fn initial() -> Machine {
        Machine {
            state: State::Suspended,
            pc: 0,
            registers: Seq::new(REGISTER_COUNT as nat, |i: int| 0usize),
            memory: Seq::new(MEMORY_SIZE as nat, |i: int| 0usize),
            rom: Seq::empty(),
            input: Seq::empty(),
            output: Seq::empty(),
        }
    }

    /// The register file has its fixed size.
    pub open spec fn wf(self) -> bool {
        self.registers.len() == REGISTER_COUNT
    }

    /// The value that an operand byte resolves to: an immediate is its own
    /// value, an offset is added to the program counter, a register is
    /// read. An offset that carries the program counter past the largest
    /// word resolves to nothing.
    pub open spec fn resolve(self, operand: u8) -> Option<usize> {
        match Operand::decode(operand) {
            Operand::Immediate(value) => Some(value as usize),
            Operand::Offset(value) => if self.pc + value <= usize::MAX {
                Some((self.pc + value) as usize)
            } else {
                None
            },
            Operand::Register(index) => Some(self.registers[index as int]),
        }
    }

    /// The machine with `value` in register `index`.
    pub open spec fn write_register(self, index: usize, value: usize) -> Result<Machine, Fault> {
        if index < REGISTER_COUNT {
            Ok(Machine { registers: self.registers.update(index as int, value), ..self })
        } else {
            Err(Fault::OutOfBounds)
        }
    }

    /// The machine with `value` at `address` of its memory.
    pub open spec fn write_memory(self, address: usize, value: usize) -> Result<Machine, Fault> {
        if address < self.memory.len() {
            Ok(Machine { memory: self.memory.update(address as int, value), ..self })
        } else {
            Err(Fault::OutOfBounds)
        }
    }

    /// The machine after a branch over `distance` instructions: backwards
    /// where `forward` is zero, forwards otherwise.
    pub open spec fn jump(self, distance: usize, forward: usize) -> Result<Machine, Fault> {
        if forward == 0 {
            if distance <= self.pc {
                Ok(Machine { pc: (self.pc - distance) as usize, ..self })
            } else {
                Err(Fault::OutOfBounds)
            }
        } else {
            if self.pc + distance <= usize::MAX {
                Ok(Machine { pc: (self.pc + distance) as usize, ..self })
            } else {
                Err(Fault::OutOfBounds)
            }
        }
    }

    /// The machine after `sti` into register `index`: the oldest line of
    /// input is taken and its number stored. A missing line and a line that
    /// is no unsigned number that fits a word are failures of the console.
    pub open spec fn read_input(self, index: usize) -> Result<Machine, Fault> {
        if self.input.len() == 0 {
            Err(Fault::IoFailure)
        } else {
            match unsigned(self.input[0], usize::MAX as nat) {
                None => Err(Fault::IoFailure),
                Some(value) => Machine { input: self.input.drop_first(), ..self }.write_register(
                    index,
                    value as usize,
                ),
            }
        }
    }

    /// The machine after `sto` from register `index`: the register's value
    /// in decimal is added to the output.
    pub open spec fn write_output(self, index: usize) -> Result<Machine, Fault> {
        if index < REGISTER_COUNT {
            Ok(
                Machine {
                    output: self.output + decimal(self.registers[index as int] as nat),
                    ..self
                },
            )
        } else {
            Err(Fault::OutOfBounds)
        }
    }

    /// The effect of operation `op` on resolved operands `d`, `x` and `y`.
    /// Sums, differences and products wrap at the width of a word.
    pub open spec fn perform(self, op: Opcode, d: usize, x: usize, y: usize) -> Result<
        Machine,
        Fault,
    > {
        match op {
            Opcode::Halt => Ok(Machine { state: State::Halting, ..self }),
            Opcode::Load => if x < self.memory.len() {
                self.write_register(d, self.memory[x as int])
            } else {
                Err(Fault::OutOfBounds)
            },
            Opcode::Store => if x < REGISTER_COUNT {
                self.write_memory(d, self.registers[x as int])
            } else {
                Err(Fault::OutOfBounds)
            },
            Opcode::SetRegister => self.write_register(d, x),
            Opcode::CopyRegister => if x < REGISTER_COUNT {
                self.write_register(d, self.registers[x as int])
            } else {
                Err(Fault::OutOfBounds)
            },
            Opcode::JumpIfTrue => if x > 0 {
                self.jump(d, y)
            } else {
                Ok(self)
            },
            Opcode::JumpIfFalse => if x == 0 {
                self.jump(d, y)
            } else {
                Ok(self)
            },
            Opcode::Add => self.write_register(d, x.wrapping_add(y)),
            Opcode::Subtract => self.write_register(d, x.wrapping_sub(y)),
            Opcode::Multiply => self.write_register(d, x.wrapping_mul(y)),
            Opcode::Divide => if y == 0 {
                Err(Fault::ArithmeticFault)
            } else {
                self.write_register(d, x / y)
            },
            Opcode::Modulo => if y == 0 {
                Err(Fault::ArithmeticFault)
            } else {
                self.write_register(d, x % y)
            },
            Opcode::Equal => self.write_register(d, truth(x == y)),
            Opcode::NotEqual => self.write_register(d, truth(x != y)),
            Opcode::LessThan => self.write_register(d, truth(x < y)),
            Opcode::LessOrEqual => self.write_register(d, truth(x <= y)),
            Opcode::GreaterThan => self.write_register(d, truth(x > y)),
            Opcode::GreaterOrEqual => self.write_register(d, truth(x >= y)),
            Opcode::ReadInput => self.read_input(d),
            Opcode::WriteOutput => self.write_output(d),
        }
    }

    /// The machine after `instruction`, or the fault that it ends in. The
    /// opcode is decoded first; then the three operands are resolved,
    /// against the registers and the program counter as they stand; then
    /// the operation is performed. The program counter moves only by a
    /// branch.
    pub open spec fn execute(self, instruction: Instruction) -> Result<Machine, Fault> {
        match Opcode::decode(instruction.opcode) {
            None => Err(Fault::UnknownOpcode),
            Some(op) => match (
                self.resolve(instruction.dest),
                self.resolve(instruction.op1),
                self.resolve(instruction.op2),
            ) {
                (Some(d), Some(x), Some(y)) => self.perform(op, d, x, y),
                _ => Err(Fault::OutOfBounds),
            },
        }
    }

    /// Whether the machine is about to read a line of input and has none.
    pub open spec fn awaits_input(self) -> bool {
        &&& self.pc < self.rom.len()
        &&& Opcode::decode(self.rom[self.pc as int].opcode) == Some(Opcode::ReadInput)
        &&& self.input.len() == 0
    }

    /// Whether the run loop goes on: the machine is running, its program
    /// counter is inside the program, and it does not wait for input.
    pub open spec fn ready(self) -> bool {
        &&& self.state == State::Running
        &&& self.pc < self.rom.len()
        &&& !self.awaits_input()
    }

    /// One turn of the run loop: the instruction at the program counter is
    /// executed, and then the program counter moves on by one, after a
    /// branch too. There is no turn where the program counter is outside
    /// the program or cannot move on.
    pub open spec fn step(self) -> Result<Machine, Fault> {
        if self.pc < self.rom.len() {
            match self.execute(self.rom[self.pc as int]) {
                Err(fault) => Err(fault),
                Ok(next) => if next.pc < usize::MAX {
                    Ok(Machine { pc: (next.pc + 1) as usize, ..next })
                } else {
                    Err(Fault::OutOfBounds)
                },
            }
        } else {
            Err(Fault::OutOfBounds)
        }
    }

    /// The machine after at most `limit` turns of the run loop, and how the
    /// loop ended. It ends when the machine is no longer ready, when a turn
    /// faults, which leaves the machine as it was before that turn, or when
    /// the limit is reached.
    pub open spec fn run(self, limit: nat) -> (Machine, Result<(), Fault>)
        decreases limit,
    {
        if limit == 0 || !self.ready() {
            (self, Ok(()))
        } else {
            match self.step() {
                Err(fault) => (self, Err(fault)),
                Ok(next) => next.run((limit - 1) as nat),
            }
        }
    }

    /// The machine once started.
    pub open spec fn start(self) -> Machine {
        Machine { state: State::Running, ..self }
    }

    /// Only a branch moves the program counter, and it changes nothing
    /// else.
    pub proof fn lemma_branch_only_moves(self, instruction: Instruction)
        ensures
            match self.execute(instruction) {
                Ok(next) => next.pc != self.pc ==> next == (Machine { pc: next.pc, ..self }),
                Err(_) => true,
            },
    {
    }

    /// Whether `instruction` is a division or a remainder whose operands
    /// resolve and whose right-hand operand resolves to zero.
    pub open spec fn divides_by_zero(self, instruction: Instruction) -> bool {
        &&& Opcode::decode(instruction.opcode) == Some(Opcode::Divide) || Opcode::decode(
            instruction.opcode,
        ) == Some(Opcode::Modulo)
        &&& self.resolve(instruction.dest) is Some
        &&& self.resolve(instruction.op1) is Some
        &&& self.resolve(instruction.op2) == Some(0usize)
    }

    /// A division or a remainder by zero is an arithmetic fault, whatever
    /// the destination is.
    pub proof fn lemma_division_by_zero_faults(self, instruction: Instruction)
        requires
            self.divides_by_zero(instruction),
        ensures
            self.execute(instruction) == Err::<Machine, Fault>(Fault::ArithmeticFault),
    {
    }

    /// A run that comes, after `turns` turns, to a division or a remainder
    /// by zero ends in an arithmetic fault, with the machine as it stood
    /// before that instruction: the instruction has no result.
    pub proof fn lemma_run_ends_in_arithmetic_fault(self, turns: nat, limit: nat, at: Machine)
        requires
            turns < limit,
            self.run(turns) == (at, Ok::<(), Fault>(())),
            at.ready(),
            at.divides_by_zero(at.rom[at.pc as int]),
        ensures
            self.run(limit) == (at, Err::<(), Fault>(Fault::ArithmeticFault)),
        decreases turns,
    {
        if turns == 0 {
            at.lemma_division_by_zero_faults(at.rom[at.pc as int]);
        } else {
            match self.step() {
                Ok(next) => {
                    next.lemma_run_ends_in_arithmetic_fault(
                        (turns - 1) as nat,
                        (limit - 1) as nat,
                        at,
                    );
                },
                Err(_) => {},
            }
        }
    }

    /// Only `hlt` changes whether the machine runs, and it halts it.
    pub proof fn lemma_only_halt_halts(self, instruction: Instruction)
        ensures
            match self.execute(instruction) {
                Ok(next) => next.state == if Opcode::decode(instruction.opcode) == Some(
                    Opcode::Halt,
                ) {
                    State::Halting
                } else {
                    self.state
                },
                Err(_) => true,
            },
    {
    }

    /// No instruction changes the size of the register file or of the
    /// memory, and none changes the program.
    pub proof fn lemma_execute_keeps_sizes(self, instruction: Instruction)
        requires
            self.wf(),
        ensures
            match self.execute(instruction) {
                Ok(next) => {
                    &&& next.wf()
                    &&& next.memory.len() == self.memory.len()
                    &&& next.rom == self.rom
                },
                Err(_) => true,
            },
    {
    }

    /// The machine with `instructions` loaded: not started, the program
    /// counter at the first instruction. Registers, memory and console stay.
    pub open spec fn load(self, instructions: Seq<Instruction>) -> Machine {
        Machine { state: State::Suspended, pc: 0, rom: instructions, ..self }
    }
}

/// The instructions that a buffer of bytes holds: one for each full group
/// of four bytes. Bytes left over at the end are not read.
pub open spec fn instructions_of(bytes: Seq<u8>) -> Seq<Instruction> {
    Seq::new(
        bytes.len() / 4,
        |i: int| Instruction::of_bytes(bytes.subrange(4 * i, 4 * i + 4)),
    )
}

/// The texts of a queue of lines.
spec fn texts(lines: Seq<String>) -> Seq<Seq<char>> {
    Seq::new(lines.len(), |i: int| lines[i]@)
}

/// The machine.
pub struct Cpu {
    state: State,
    pc: usize,
    registers: [usize; REGISTER_COUNT],
    rom: Vec<Instruction>,
    memory: Vec<usize>,
    input: Vec<String>,
    output: String,
}

impl View for Cpu {
    type V = Machine;

    closed spec fn view(&self) -> Machine {
        Machine {
            state: self.state,
            pc: self.pc,
            registers: self.registers@,
            memory: self.memory@,
            rom: self.rom@,
            input: texts(self.input@),
            output: self.output@,
        }
    }
}

impl Default for Cpu {
    /// A new machine.
    fn default() -> (cpu: Cpu)
        ensures
            cpu@ == Machine::initial(),
    {
        let cpu = Cpu {
            state: State::Suspended,
            pc: 0,
            registers: [0;REGISTER_COUNT],
            rom: Vec::new(),
            memory: vec![0; MEMORY_SIZE],
            input: Vec::new(),
            output: String::new(),
        };
        proof {
            assert(cpu@.registers =~= Machine::initial().registers);
            assert(cpu@.memory =~= Machine::initial().memory);
            assert(cpu@.rom =~= Machine::initial().rom);
            assert(cpu@.input =~= Machine::initial().input);
        }
        cpu
    }
}

impl Cpu {
    /// A new machine.
    pub fn new() -> (cpu: Cpu)
        ensures
            cpu@ == Machine::initial(),
    {
        Default::default()
    }

    /// The registers.
    pub fn registers(&self) -> (registers: &[usize])
        ensures
            registers@ == self@.registers,
            self@.wf(),
    {
        &self.registers
    }

    /// The memory.
    pub fn memory(&self) -> (memory: &[usize])
        ensures
            memory@ == self@.memory,
            self@.wf(),
    {
        self.memory.as_slice()
    }

    /// The loaded program.
    pub fn rom(&self) -> (rom: &[Instruction])
        ensures
            rom@ == self@.rom,
    {
        self.rom.as_slice()
    }

    /// The program counter.
    pub fn pc(&self) -> (pc: usize)
        ensures
            pc == self@.pc,
    {
        self.pc
    }

    /// Whether the machine runs.
    pub fn state(&self) -> (state: State)
        ensures
            state == self@.state,
    {
        self.state
    }

    /// The console output not yet taken.
    pub fn output(&self) -> (output: &str)
        ensures
            output@ == self@.output,
    {
        self.output.as_str()
    }

    /// Hands out the console output and empties the buffer.
    pub fn take_output(&mut self) -> (output: String)
        ensures
            output@ == old(self)@.output,
            final(self)@ == (Machine { output: Seq::empty(), ..old(self)@ }),
    {
        let output = self.output.clone();
        self.output = String::new();
        output
    }

    /// Queues one line of console input, given without its line end.
    pub fn push_input(&mut self, line: &str)
        ensures
            final(self)@ == (Machine { input: old(self)@.input.push(line@), ..old(self)@ }),
    {
        self.input.push(line.to_owned());
        proof {
            assert(texts(self.input@) =~= texts(old(self).input@).push(line@));
        }
    }

    /// Whether the machine is about to read a line of input and has none.
    pub fn awaits_input(&self) -> (waiting: bool)
        ensures
            waiting == self@.awaits_input(),
    {
        if self.pc < self.rom.len() && self.input.len() == 0 {
            match Opcode::from_byte(self.rom[self.pc].opcode) {
                Some(Opcode::ReadInput) => true,
                _ => false,
            }
        } else {
            false
        }
    }

    /// Puts `value` into register `index`. Fails, with `OutOfBounds` and
    /// changing nothing, exactly where there is no such register.
    pub fn set_register(&mut self, index: usize, value: usize) -> (result: Result<(), Fault>)
        ensures
            match result {
                Ok(()) => old(self)@.write_register(index, value) == Ok::<Machine, Fault>(
                    final(self)@,
                ),
                Err(fault) => old(self)@.write_register(index, value) == Err::<Machine, Fault>(
                    fault,
                ) && final(self)@ == old(self)@,
            },
    {
        if index < REGISTER_COUNT {
            self.registers[index] = value;
            Ok(())
        } else {
            Err(Fault::OutOfBounds)
        }
    }

    /// Puts `value` at `address` of the memory. Fails, with `OutOfBounds`
    /// and changing nothing, exactly where the memory has no such address.
    pub fn set_memory(&mut self, address: usize, value: usize) -> (result: Result<(), Fault>)
        ensures
            match result {
                Ok(()) => old(self)@.write_memory(address, value) == Ok::<Machine, Fault>(
                    final(self)@,
                ),
                Err(fault) => old(self)@.write_memory(address, value) == Err::<Machine, Fault>(
                    fault,
                ) && final(self)@ == old(self)@,
            },
    {
        if address < self.memory.len() {
            self.memory.set(address, value);
            Ok(())
        } else {
            Err(Fault::OutOfBounds)
        }
    }

    /// Loads a program. The machine is ready for a fresh run: not started,
    /// with the program counter at the first instruction.
    pub fn load_instructions(&mut self, instructions: Vec<Instruction>)
        ensures
            final(self)@ == old(self)@.load(instructions@),
    {
        self.rom = instructions;
        self.state = State::Suspended;
        self.pc = 0;
    }

    /// Loads the program that `bytes` holds, four bytes to an instruction.
    /// Bytes left over at the end are not read.
    pub fn load_bytes(&mut self, bytes: &[u8])
        ensures
            final(self)@ == old(self)@.load(instructions_of(bytes@)),
    {
        let mut instructions: Vec<Instruction> = Vec::with_capacity(bytes.len() / 4);
        let mut at: usize = 0;
        while bytes.len() - at >= 4
            invariant
                at <= bytes@.len(),
                at == 4 * instructions@.len(),
                instructions@ == instructions_of(bytes@).take(instructions@.len() as int),
            decreases bytes@.len() - at,
        {
            let group = [bytes[at], bytes[at + 1], bytes[at + 2], bytes[at + 3]];
            let instruction = Instruction::from(group);
            proof {
                assert(group@ =~= bytes@.subrange(at as int, at + 4));
            }
            instructions.push(instruction);
            proof {
                assert(instructions@ =~= instructions_of(bytes@).take(instructions@.len() as int));
            }
            at += 4;
        }
        proof {
            assert(instructions@ =~= instructions_of(bytes@));
        }
        self.load_instructions(instructions);
    }

    /// Assembles a program text and loads the program. A text that is
    /// refused changes nothing.
    pub fn load_assembly(&mut self, assembly: &str) -> (result: Result<(), AssemblyError>)
        ensures
            match result {
                Ok(()) => assemble_program(assembly@) matches Ok(program) && final(self)@ == old(
                    self,
                )@.load(program),
                Err(error) => assemble_program(assembly@) == Err::<
                    Seq<Instruction>,
                    AssemblyError,
                >(error) && final(self)@ == old(self)@,
            },
    {
        match parse_program(assembly) {
            Ok(instructions) => {
                self.load_instructions(instructions);
                Ok(())
            },
            Err(error) => Err(error),
        }
    }

    /// Resolves an operand byte to its value. Fails, with `OutOfBounds`,
    /// exactly where an offset carries the program counter past the largest
    /// word.
    pub fn evaluate_parameter(&self, parameter: u8) -> (value: Result<usize, Fault>)
        ensures
            match value {
                Ok(value) => self@.resolve(parameter) == Some(value),
                Err(fault) => fault == Fault::OutOfBounds && self@.resolve(parameter) is None,
            },
    {
        match Operand::from_byte(parameter) {
            Operand::Immediate(value) => Ok(value as usize),
            Operand::Offset(value) => match self.pc.checked_add(value as usize) {
                Some(address) => Ok(address),
                None => Err(Fault::OutOfBounds),
            },
            Operand::Register(index) => {
                proof {
                    Operand::lemma_decode_bounds(parameter);
                }
                Ok(self.registers[index as usize])
            },
        }
    }

    /// Resolves the three operands of an instruction: `dest`, `op1`, `op2`.
    pub fn evaluate_all_parameters(&self, instruction: Instruction) -> (values: Result<
        (usize, usize, usize),
        Fault,
    >)
        ensures
            match values {
                Ok((d, x, y)) => {
                    &&& self@.resolve(instruction.dest) == Some(d)
                    &&& self@.resolve(instruction.op1) == Some(x)
                    &&& self@.resolve(instruction.op2) == Some(y)
                },
                Err(fault) => {
                    &&& fault == Fault::OutOfBounds
                    &&& (self@.resolve(instruction.dest) is None || self@.resolve(
                        instruction.op1,
                    ) is None || self@.resolve(instruction.op2) is None)
                },
            },
    {
        let (_, dest, op1, op2) = instruction.into_parts();
        let d = self.evaluate_parameter(dest)?;
        let x = self.evaluate_parameter(op1)?;
        let y = self.evaluate_parameter(op2)?;
        Ok((d, x, y))
    }
}

impl Cpu {
    fn jump(&mut self, distance: usize, forward: usize) -> (result: Result<(), Fault>)
        ensures
            match result {
                Ok(()) => old(self)@.jump(distance, forward) == Ok::<Machine, Fault>(final(self)@),
                Err(fault) => old(self)@.jump(distance, forward) == Err::<Machine, Fault>(fault)
                    && final(self)@ == old(self)@,
            },
    {
        let target = if forward == 0 {
            self.pc.checked_sub(distance)
        } else {
            self.pc.checked_add(distance)
        };
        match target {
            Some(pc) => {
                self.pc = pc;
                Ok(())
            },
            None => Err(Fault::OutOfBounds),
        }
    }

    fn read_input(&mut self, index: usize) -> (result: Result<(), Fault>)
        ensures
            match result {
                Ok(()) => old(self)@.read_input(index) == Ok::<Machine, Fault>(final(self)@),
                Err(fault) => old(self)@.read_input(index) == Err::<Machine, Fault>(fault)
                    && final(self)@ == old(self)@,
            },
    {
        if self.input.len() == 0 {
            return Err(Fault::IoFailure);
        }
        assert(self@.input[0] == self.input@[0]@);
        let value = match parse_decimal(self.input[0].as_str()) {
            Some(value) => value,
            None => {
                return Err(Fault::IoFailure);
            },
        };
        if index >= REGISTER_COUNT {
            return Err(Fault::OutOfBounds);
        }
        self.input.remove(0);
        self.registers[index] = value;
        proof {
            assert(texts(self.input@) =~= texts(old(self).input@).drop_first());
        }
        Ok(())
    }

    fn write_output(&mut self, index: usize) -> (result: Result<(), Fault>)
        ensures
            match result {
                Ok(()) => old(self)@.write_output(index) == Ok::<Machine, Fault>(final(self)@),
                Err(fault) => old(self)@.write_output(index) == Err::<Machine, Fault>(fault)
                    && final(self)@ == old(self)@,
            },
    {
        if index >= REGISTER_COUNT {
            return Err(Fault::OutOfBounds);
        }
        push_decimal(&mut self.output, self.registers[index]);
        Ok(())
    }

    /// Executes one instruction. The program counter moves only by a
    /// branch. A fault changes nothing.
    pub fn process_instruction(&mut self, instruction: Instruction) -> (result: Result<(), Fault>)
        ensures
            match result {
                Ok(()) => old(self)@.execute(instruction) == Ok::<Machine, Fault>(final(self)@),
                Err(fault) => old(self)@.execute(instruction) == Err::<Machine, Fault>(fault)
                    && final(self)@ == old(self)@,
            },
    {
        let op = match Opcode::from_byte(instruction.opcode) {
            Some(op) => op,
            None => {
                return Err(Fault::UnknownOpcode);
            },
        };
        let (dest, op1, op2) = match self.evaluate_all_parameters(instruction) {
            Ok(values) => values,
            Err(fault) => {
                return Err(fault);
            },
        };
        match op {
            Opcode::Halt => {
                self.state = State::Halting;
                Ok(())
            },
            Opcode::Load => {
                if op1 < self.memory.len() {
                    let value = self.memory[op1];
                    self.set_register(dest, value)
                } else {
                    Err(Fault::OutOfBounds)
                }
            },
            Opcode::Store => {
                if op1 < REGISTER_COUNT {
                    let value = self.registers[op1];
                    self.set_memory(dest, value)
                } else {
                    Err(Fault::OutOfBounds)
                }
            },
            Opcode::SetRegister => self.set_register(dest, op1),
            Opcode::CopyRegister => {
                if op1 < REGISTER_COUNT {
                    let value = self.registers[op1];
                    self.set_register(dest, value)
                } else {
                    Err(Fault::OutOfBounds)
                }
            },
            Opcode::JumpIfTrue => {
                if op1 > 0 {
                    self.jump(dest, op2)
                } else {
                    Ok(())
                }
            },
            Opcode::JumpIfFalse => {
                if op1 == 0 {
                    self.jump(dest, op2)
                } else {
                    Ok(())
                }
            },
            Opcode::Add => self.set_register(dest, op1.wrapping_add(op2)),
            Opcode::Subtract => self.set_register(dest, op1.wrapping_sub(op2)),
            Opcode::Multiply => self.set_register(dest, op1.wrapping_mul(op2)),
            Opcode::Divide => {
                if op2 == 0 {
                    Err(Fault::ArithmeticFault)
                } else {
                    self.set_register(dest, op1 / op2)
                }
            },
            Opcode::Modulo => {
                if op2 == 0 {
                    Err(Fault::ArithmeticFault)
                } else {
                    self.set_register(dest, op1 % op2)
                }
            },
            Opcode::Equal => self.set_register(dest, if op1 == op2 { 1 } else { 0 }),
            Opcode::NotEqual => self.set_register(dest, if op1 != op2 { 1 } else { 0 }),
            Opcode::LessThan => self.set_register(dest, if op1 < op2 { 1 } else { 0 }),
            Opcode::LessOrEqual => self.set_register(dest, if op1 <= op2 { 1 } else { 0 }),
            Opcode::GreaterThan => self.set_register(dest, if op1 > op2 { 1 } else { 0 }),
            Opcode::GreaterOrEqual => self.set_register(dest, if op1 >= op2 { 1 } else { 0 }),
            Opcode::ReadInput => self.read_input(dest),
            Opcode::WriteOutput => self.write_output(dest),
        }
    }

    /// Whether the run loop goes on.
    pub fn ready(&self) -> (ready: bool)
        ensures
            ready == self@.ready(),
    {
        self.state == State::Running && self.pc < self.rom.len() && !self.awaits_input()
    }

    /// One turn of the run loop: executes the instruction at the program
    /// counter and moves the program counter on by one. A fault changes
    /// nothing.
    pub fn step(&mut self) -> (result: Result<(), Fault>)
        ensures
            match result {
                Ok(()) => old(self)@.step() == Ok::<Machine, Fault>(final(self)@),
                Err(fault) => old(self)@.step() == Err::<Machine, Fault>(fault) && final(self)@
                    == old(self)@,
            },
    {
        if self.pc >= self.rom.len() {
            return Err(Fault::OutOfBounds);
        }
        let before = self.pc;
        let instruction = self.rom[self.pc];
        match self.process_instruction(instruction) {
            Ok(()) => {},
            Err(fault) => {
                return Err(fault);
            },
        }
        if self.pc == usize::MAX {
            proof {
                old(self)@.lemma_branch_only_moves(instruction);
            }
            self.pc = before;
            return Err(Fault::OutOfBounds);
        }
        self.pc += 1;
        Ok(())
    }

    /// Starts the machine and runs it until it halts, its program counter
    /// leaves the program, it needs a line of input that is not there, or
    /// an instruction faults. A fault leaves the machine as it was before
    /// the instruction that faulted. The loop makes no more turns than a
    /// word can count.
    pub fn run(&mut self) -> (result: Result<(), Fault>)
        ensures
            final(self)@ == old(self)@.start().run(usize::MAX as nat).0,
            result == old(self)@.start().run(usize::MAX as nat).1,
    {
        self.state = State::Running;
        let mut budget: usize = usize::MAX;
        while budget > 0 && self.ready()
            invariant
                old(self)@.start().run(usize::MAX as nat) == self@.run(budget as nat),
            decreases budget,
        {
            match self.step() {
                Ok(()) => {},
                Err(fault) => {
                    return Err(fault);
                },
            }
            budget -= 1;
        }
        Ok(())
    }
}

} // verus!
