use gorpvm::assembly::{AssemblyError, Mismatch};
use gorpvm::cpu::{Cpu, Fault, State};
use gorpvm::instruction::Instruction;

// Add register mode to a number
fn r(num: u8) -> u8 {
    0b0001_0000 | num
}

fn exec(cpu: &mut Cpu, bytes: [u8; 4]) {
    cpu.process_instruction(Instruction::from(bytes)).unwrap();
}

#[test]
fn lib_load() {
    let mut cpu = Cpu::new();
    cpu.set_memory(0, 1).unwrap();
    cpu.set_memory(1, 2).unwrap();

    exec(&mut cpu, [0x01, 0, 0, 0]);
    exec(&mut cpu, [0x01, 1, 1, 0]);

    assert_eq!(cpu.registers()[0], 1);
    assert_eq!(cpu.registers()[1], 2);
}

#[test]
fn lib_store() {
    let mut cpu = Cpu::new();
    cpu.set_register(0, 1).unwrap();
    cpu.set_register(1, 2).unwrap();

    exec(&mut cpu, [0x02, 0, 0, 0]);
    exec(&mut cpu, [0x02, 1, 1, 0]);

    assert_eq!(cpu.memory()[0], 1);
    assert_eq!(cpu.memory()[1], 2);
}

#[test]
fn lib_set() {
    let mut cpu = Cpu::new();
    exec(&mut cpu, [0x03, 0, 3, 0]);
    exec(&mut cpu, [0x03, 1, 8, 0]);

    assert_eq!(cpu.registers()[0], 3);
    assert_eq!(cpu.registers()[1], 8);
}

#[test]
fn lib_copy() {
    let mut cpu = Cpu::new();
    exec(&mut cpu, [0x03, 0, 3, 0]);
    exec(&mut cpu, [0x04, 1, 0, 0]);
    exec(&mut cpu, [0x04, 2, 1, 0]);

    assert_eq!(cpu.registers()[1], 3);
    assert_eq!(cpu.registers()[2], 3);
}

#[test]
fn lib_add() {
    let mut cpu = Cpu::new();
    exec(&mut cpu, [0x03, 0, 3, 0]);
    exec(&mut cpu, [0x03, 1, 2, 0]);

    exec(&mut cpu, [0x20, 2, r(0), r(1)]);
    assert_eq!(cpu.registers()[2], 5);

    exec(&mut cpu, [0x20, 2, r(0), r(2)]);
    assert_eq!(cpu.registers()[2], 8);

    exec(&mut cpu, [0x20, 2, r(2), 2]);
    assert_eq!(cpu.registers()[2], 10);
}

#[test]
fn lib_subtract() {
    let mut cpu = Cpu::new();
    exec(&mut cpu, [0x03, 0, 3, 0]);
    exec(&mut cpu, [0x03, 1, 2, 0]);

    exec(&mut cpu, [0x21, 2, r(0), r(1)]);
    assert_eq!(cpu.registers()[2], 1);

    exec(&mut cpu, [0x03, 1, 1, 0]);
    exec(&mut cpu, [0x21, 2, r(2), r(1)]);
    assert_eq!(cpu.registers()[2], 0);

    exec(&mut cpu, [0x21, 3, r(0), 1]);
    assert_eq!(cpu.registers()[3], 2);
}

#[test]
fn lib_multiply() {
    let mut cpu = Cpu::new();
    exec(&mut cpu, [0x03, 0, 3, 0]);
    exec(&mut cpu, [0x03, 1, 2, 0]);

    exec(&mut cpu, [0x22, 2, r(0), r(1)]);
    assert_eq!(cpu.registers()[2], 6);

    exec(&mut cpu, [0x22, 2, r(0), r(2)]);
    assert_eq!(cpu.registers()[2], 18);

    exec(&mut cpu, [0x22, 3, r(0), 2]);
    assert_eq!(cpu.registers()[3], 6);
}

#[test]
fn lib_divide() {
    let mut cpu = Cpu::new();
    exec(&mut cpu, [0x03, 0, 6, 0]);
    exec(&mut cpu, [0x03, 1, 2, 0]);

    exec(&mut cpu, [0x23, 2, r(0), r(1)]);
    assert_eq!(cpu.registers()[2], 3);

    exec(&mut cpu, [0x23, 2, r(2), r(1)]);
    assert_eq!(cpu.registers()[2], 1);

    exec(&mut cpu, [0x23, 3, r(0), 3]);
    assert_eq!(cpu.registers()[3], 2);
}

#[test]
fn lib_modulo() {
    let mut cpu = Cpu::new();
    exec(&mut cpu, [0x03, 0, 8, 0]);
    exec(&mut cpu, [0x03, 1, 3, 0]);

    exec(&mut cpu, [0x24, 2, r(0), r(1)]);
    assert_eq!(cpu.registers()[2], 2);

    exec(&mut cpu, [0x24, 2, r(1), r(2)]);
    assert_eq!(cpu.registers()[2], 1);

    exec(&mut cpu, [0x24, 3, r(0), 5]);
    assert_eq!(cpu.registers()[3], 3);
}

#[test]
fn lib_jump_if_true() {
    let mut cpu = Cpu::new();
    cpu.set_register(0, 1).unwrap();
    cpu.set_register(1, 0).unwrap();

    exec(&mut cpu, [0x10, 5, r(0), 1]);
    assert_eq!(cpu.pc(), 5);

    exec(&mut cpu, [0x10, 5, r(1), 1]);
    assert_eq!(cpu.pc(), 5);

    exec(&mut cpu, [0x10, 3, r(0), 0]);
    assert_eq!(cpu.pc(), 2);
}

#[test]
fn lib_jump_if_false() {
    let mut cpu = Cpu::new();
    cpu.set_register(0, 0).unwrap();
    cpu.set_register(1, 1).unwrap();

    exec(&mut cpu, [0x11, 5, r(0), 1]);
    assert_eq!(cpu.pc(), 5);

    exec(&mut cpu, [0x11, 5, r(1), 1]);
    assert_eq!(cpu.pc(), 5);

    exec(&mut cpu, [0x11, 3, r(0), 0]);
    assert_eq!(cpu.pc(), 2);
}

#[test]
fn lib_is_equal() {
    let mut cpu = Cpu::new();
    cpu.set_register(0, 5).unwrap();
    cpu.set_register(2, 5).unwrap();

    exec(&mut cpu, [0x30, 1, r(0), 5]);
    assert_eq!(cpu.registers()[1], 1);

    exec(&mut cpu, [0x30, 2, r(0), 4]);
    assert_eq!(cpu.registers()[2], 0);
}

#[test]
fn lib_is_not_equal() {
    let mut cpu = Cpu::new();
    cpu.set_register(0, 5).unwrap();
    cpu.set_register(2, 5).unwrap();

    exec(&mut cpu, [0x31, 1, r(0), 4]);
    assert_eq!(cpu.registers()[1], 1);

    exec(&mut cpu, [0x31, 2, r(0), 5]);
    assert_eq!(cpu.registers()[2], 0);
}

#[test]
fn lib_is_less_than() {
    let mut cpu = Cpu::new();
    cpu.set_register(0, 5).unwrap();
    cpu.set_register(2, 5).unwrap();

    exec(&mut cpu, [0x32, 1, r(0), 6]);
    assert_eq!(cpu.registers()[1], 1);

    exec(&mut cpu, [0x32, 2, r(0), 4]);
    assert_eq!(cpu.registers()[2], 0);
}

#[test]
fn lib_is_less_than_or_equal() {
    let mut cpu = Cpu::new();
    cpu.set_register(0, 5).unwrap();
    cpu.set_register(2, 5).unwrap();

    exec(&mut cpu, [0x33, 1, r(0), 6]);
    assert_eq!(cpu.registers()[1], 1);

    exec(&mut cpu, [0x33, 1, r(0), 5]);
    assert_eq!(cpu.registers()[1], 1);

    exec(&mut cpu, [0x33, 2, r(0), 4]);
    assert_eq!(cpu.registers()[2], 0);
}

#[test]
fn lib_is_greater_than() {
    let mut cpu = Cpu::new();
    cpu.set_register(0, 5).unwrap();
    cpu.set_register(2, 5).unwrap();

    exec(&mut cpu, [0x34, 1, r(0), 3]);
    assert_eq!(cpu.registers()[1], 1);

    exec(&mut cpu, [0x34, 2, r(0), 5]);
    assert_eq!(cpu.registers()[2], 0);

    exec(&mut cpu, [0x34, 2, r(0), 7]);
    assert_eq!(cpu.registers()[2], 0);
}

#[test]
fn lib_is_greater_than_or_equal() {
    let mut cpu = Cpu::new();
    cpu.set_register(0, 5).unwrap();
    cpu.set_register(2, 5).unwrap();

    exec(&mut cpu, [0x35, 1, r(0), 5]);
    assert_eq!(cpu.registers()[1], 1);

    exec(&mut cpu, [0x35, 1, r(0), 4]);
    assert_eq!(cpu.registers()[1], 1);

    exec(&mut cpu, [0x35, 2, r(0), 7]);
    assert_eq!(cpu.registers()[2], 0);
}

#[test]
fn lib_looping_addition_program() {
    let mut cpu = Cpu::new();
    cpu.load_bytes(&[
        0x03, 0, 1, 0,
        0x03, 1, 1, 0,
        0x20, 1, r(0), r(1),
        0x32, 3, r(1), 8,
        0x10, 3, r(3), 0,
        0x11, 2, r(2), 1,
        0, 0, 0, 0,
        0, 0, 0, 0,
        0x03, 2, 9, 0,
        0,
    ]);
    cpu.run().unwrap();

    assert_eq!(cpu.registers()[0], 1);
    assert_eq!(cpu.registers()[1], 8);
    assert_eq!(cpu.registers()[2], 9);
    assert_eq!(cpu.registers()[3], 0);
}

#[test]
fn new_machine_is_zeroed_and_suspended() {
    let cpu = Cpu::new();
    assert_eq!(cpu.state(), State::Suspended);
    assert_eq!(cpu.pc(), 0);
    assert_eq!(cpu.registers().len(), 16);
    assert!(cpu.registers().iter().all(|&word| word == 0));
    assert_eq!(cpu.memory().len(), 65536);
    assert!(cpu.memory().iter().all(|&word| word == 0));
    assert_eq!(cpu.output(), "");
    assert!(cpu.rom().is_empty());
    assert!(!cpu.ready());

    let cpu = Cpu::default();
    assert_eq!(cpu.state(), State::Suspended);
    assert_eq!(cpu.registers(), &[0; 16][..]);
    assert_eq!(cpu.memory().len(), 65536);
}

#[test]
fn addressing_modes_resolve() {
    let mut cpu = Cpu::new();
    assert_eq!(cpu.evaluate_parameter(0x83), Ok(3));
    assert_eq!(cpu.evaluate_parameter(0xFF), Ok(127));
    assert_eq!(cpu.evaluate_parameter(0x0F), Ok(15));

    cpu.set_register(2, 7).unwrap();
    assert_eq!(cpu.evaluate_parameter(0x12), Ok(7));
    assert_eq!(cpu.evaluate_parameter(0x32), Ok(7));

    // Jump forward by 10 to put the program counter at 10.
    exec(&mut cpu, [0x10, 0x8A, 0x81, 0x81]);
    assert_eq!(cpu.pc(), 10);
    assert_eq!(cpu.evaluate_parameter(0x41), Ok(11));
    assert_eq!(cpu.evaluate_parameter(0x7F), Ok(73));
}

#[test]
fn all_parameters_resolve_in_order() {
    let mut cpu = Cpu::new();
    cpu.set_register(1, 40).unwrap();
    let instruction = Instruction::from([0x20, 0x85, 0x11, 0x42]);
    assert_eq!(cpu.evaluate_all_parameters(instruction), Ok((5, 40, 2)));
}

#[test]
fn offset_past_the_largest_word_is_out_of_bounds() {
    let mut cpu = Cpu::new();
    cpu.set_register(0, usize::MAX).unwrap();
    // Jump forward by the largest word.
    exec(&mut cpu, [0x10, r(0), 0x81, 0x81]);
    assert_eq!(cpu.pc(), usize::MAX);
    assert_eq!(cpu.evaluate_parameter(0x41), Err(Fault::OutOfBounds));
    assert_eq!(cpu.evaluate_parameter(0x40), Ok(usize::MAX));
    let before = cpu.registers().to_vec();
    let halt_with_offset = Instruction::from([0x00, 0x41, 0, 0]);
    assert_eq!(cpu.process_instruction(halt_with_offset), Err(Fault::OutOfBounds));
    assert_eq!(cpu.state(), State::Suspended);
    assert_eq!(cpu.registers(), &before[..]);
}

#[test]
fn unknown_opcode_is_a_fault() {
    let mut cpu = Cpu::new();
    for opcode in [0x05u8, 0x12, 0x25, 0x36, 0x52, 0xFF] {
        let instruction = Instruction::from([opcode, 0, 0, 0]);
        assert_eq!(cpu.process_instruction(instruction), Err(Fault::UnknownOpcode));
    }
    assert_eq!(cpu.state(), State::Suspended);
    assert!(cpu.registers().iter().all(|&word| word == 0));
}

#[test]
fn division_by_zero_is_a_fault() {
    let mut cpu = Cpu::new();
    cpu.set_register(2, 42).unwrap();
    let divide = Instruction::from([0x23, 2, 0x86, 0x80]);
    assert_eq!(cpu.process_instruction(divide), Err(Fault::ArithmeticFault));
    let modulo = Instruction::from([0x24, 2, 0x86, r(5)]);
    assert_eq!(cpu.process_instruction(modulo), Err(Fault::ArithmeticFault));
    assert_eq!(cpu.registers()[2], 42);
    // The zero divisor is reported before the missing register.
    let divide_into_nowhere = Instruction::from([0x23, 0x90, 0x86, 0x80]);
    assert_eq!(cpu.process_instruction(divide_into_nowhere), Err(Fault::ArithmeticFault));
}

#[test]
fn program_that_divides_by_zero_ends_in_a_fault() {
    let mut cpu = Cpu::new();
    cpu.load_assembly("set 0 6\nset 1 0\ndiv 2 0r 1r\nset 3 1\nhlt").unwrap();
    assert_eq!(cpu.run(), Err(Fault::ArithmeticFault));
    assert_eq!(cpu.pc(), 2);
    assert_eq!(cpu.state(), State::Running);
    assert_eq!(cpu.registers()[2], 0);
    assert_eq!(cpu.registers()[3], 0);

    let mut cpu = Cpu::new();
    cpu.load_assembly("mod 2 5 0\nhlt").unwrap();
    assert_eq!(cpu.run(), Err(Fault::ArithmeticFault));
    assert_eq!(cpu.registers()[2], 0);
}

#[test]
fn registers_and_memory_are_bounded() {
    let mut cpu = Cpu::new();
    assert_eq!(cpu.set_register(16, 1), Err(Fault::OutOfBounds));
    assert_eq!(cpu.set_register(15, 1), Ok(()));
    assert_eq!(cpu.set_memory(65536, 1), Err(Fault::OutOfBounds));
    assert_eq!(cpu.set_memory(65535, 1), Ok(()));
    assert_eq!(cpu.memory()[65535], 1);

    // set 16 1: there is no register 16.
    let set = Instruction::from([0x03, 0x90, 0x81, 0]);
    assert_eq!(cpu.process_instruction(set), Err(Fault::OutOfBounds));
    // ldr 0 <register 1>: address 65536 is outside the memory.
    cpu.set_register(1, 65536).unwrap();
    let load = Instruction::from([0x01, 0, r(1), 0]);
    assert_eq!(cpu.process_instruction(load), Err(Fault::OutOfBounds));
    // str <register 1> 0: address 65536 is outside the memory.
    let store = Instruction::from([0x02, r(1), 0, 0]);
    assert_eq!(cpu.process_instruction(store), Err(Fault::OutOfBounds));
    // str 0 16, cpy 0 16: there is no register 16.
    let store = Instruction::from([0x02, 0, 0x90, 0]);
    assert_eq!(cpu.process_instruction(store), Err(Fault::OutOfBounds));
    let copy = Instruction::from([0x04, 0, 0x90, 0]);
    assert_eq!(cpu.process_instruction(copy), Err(Fault::OutOfBounds));
    // sto 16: there is no register 16.
    let output = Instruction::from([0x51, 0x90, 0, 0]);
    assert_eq!(cpu.process_instruction(output), Err(Fault::OutOfBounds));
}

#[test]
fn branch_below_zero_is_out_of_bounds() {
    let mut cpu = Cpu::new();
    let back = Instruction::from([0x10, 0x81, 0x81, 0x80]);
    assert_eq!(cpu.process_instruction(back), Err(Fault::OutOfBounds));
    assert_eq!(cpu.pc(), 0);
    cpu.set_register(0, usize::MAX).unwrap();
    exec(&mut cpu, [0x10, 0x81, 0x81, 0x81]);
    let forward = Instruction::from([0x11, r(0), 0x80, 0x81]);
    assert_eq!(cpu.process_instruction(forward), Err(Fault::OutOfBounds));
    assert_eq!(cpu.pc(), 1);
}

#[test]
fn arithmetic_wraps_at_the_word() {
    let mut cpu = Cpu::new();
    cpu.set_register(0, usize::MAX).unwrap();
    exec(&mut cpu, [0x20, 1, r(0), 0x82]);
    assert_eq!(cpu.registers()[1], 1);
    exec(&mut cpu, [0x21, 2, 0x83, 0x85]);
    assert_eq!(cpu.registers()[2], usize::MAX - 1);
    exec(&mut cpu, [0x22, 3, r(0), 0x82]);
    assert_eq!(cpu.registers()[3], usize::MAX - 1);
}

#[test]
fn halt_stops_the_run() {
    let mut cpu = Cpu::new();
    cpu.load_assembly("set 0 1\nhlt\nset 0 2").unwrap();
    assert_eq!(cpu.state(), State::Suspended);
    cpu.run().unwrap();
    assert_eq!(cpu.state(), State::Halting);
    assert_eq!(cpu.pc(), 2);
    assert_eq!(cpu.registers()[0], 1);
    // A second run goes on after the halt.
    cpu.run().unwrap();
    assert_eq!(cpu.state(), State::Running);
    assert_eq!(cpu.pc(), 3);
    assert_eq!(cpu.registers()[0], 2);
}

#[test]
fn run_ends_where_the_program_ends() {
    let mut cpu = Cpu::new();
    cpu.load_assembly("set 0 1\nset 1 2").unwrap();
    cpu.run().unwrap();
    assert_eq!(cpu.state(), State::Running);
    assert_eq!(cpu.pc(), 2);
    assert!(!cpu.ready());
    assert_eq!(cpu.step(), Err(Fault::OutOfBounds));
}

#[test]
fn branch_taken_and_not_taken_move_the_program_counter() {
    let program = "set 0 1\njpt 2 0r 1\nset 1 1\njpt 2 0r 0\nset 3 1\nhlt";

    // Taken forward: the branch at 1 adds 2, then the turn adds 1.
    let mut cpu = Cpu::new();
    cpu.load_assembly(program).unwrap();
    cpu.step().unwrap();
    assert_eq!(cpu.pc(), 1);
    cpu.step().unwrap();
    assert_eq!(cpu.pc(), 4);
    cpu.step().unwrap();
    assert_eq!(cpu.registers()[3], 1);
    assert_eq!(cpu.registers()[1], 0);

    // Not taken: only the turn adds 1.
    let mut cpu = Cpu::new();
    cpu.load_assembly(program).unwrap();
    cpu.process_instruction(Instruction::from([0x10, 0x81, 0x81, 0x81])).unwrap();
    assert_eq!(cpu.pc(), 1);
    cpu.step().unwrap();
    assert_eq!(cpu.pc(), 2);

    // Taken backward: the branch at 3 takes off 2, then the turn adds 1.
    cpu.set_register(0, 1).unwrap();
    cpu.step().unwrap();
    assert_eq!(cpu.pc(), 3);
    cpu.step().unwrap();
    assert_eq!(cpu.pc(), 2);

    // A false branch is taken on zero and passed over otherwise.
    let mut cpu = Cpu::new();
    cpu.load_assembly("jpf 2 0r 1\nhlt\nhlt\nhlt").unwrap();
    cpu.step().unwrap();
    assert_eq!(cpu.pc(), 3);
    let mut cpu = Cpu::new();
    cpu.set_register(0, 1).unwrap();
    cpu.load_assembly("jpf 2 0r 1\nhlt\nhlt\nhlt").unwrap();
    cpu.step().unwrap();
    assert_eq!(cpu.pc(), 1);
}

#[test]
fn branch_to_the_largest_word_cannot_move_on() {
    let mut cpu = Cpu::new();
    cpu.set_register(0, usize::MAX).unwrap();
    cpu.load_bytes(&[0x10, r(0), 0x81, 0x81]);
    assert_eq!(cpu.step(), Err(Fault::OutOfBounds));
    assert_eq!(cpu.pc(), 0);
}

#[test]
fn loading_resets_the_run_and_keeps_the_data() {
    let mut cpu = Cpu::new();
    cpu.load_assembly("set 0 7\nhlt").unwrap();
    cpu.run().unwrap();
    assert_eq!(cpu.state(), State::Halting);
    cpu.load_instructions(vec![Instruction::from([0x03, 0x81, 0x88, 0])]);
    assert_eq!(cpu.state(), State::Suspended);
    assert_eq!(cpu.pc(), 0);
    assert_eq!(cpu.registers()[0], 7);
    cpu.run().unwrap();
    assert_eq!(cpu.registers()[1], 8);
}

#[test]
fn load_bytes_reads_whole_instructions_only() {
    let mut cpu = Cpu::new();
    cpu.load_bytes(&[0x03, 0x80, 0x85, 0, 0x03, 0x81, 0x86]);
    assert_eq!(cpu.rom(), &[Instruction::from([0x03, 0x80, 0x85, 0])][..]);
    cpu.run().unwrap();
    assert_eq!(cpu.pc(), 1);
    assert_eq!(cpu.registers()[0], 5);
    assert_eq!(cpu.registers()[1], 0);

    let mut cpu = Cpu::new();
    cpu.load_bytes(&[1, 2, 3]);
    cpu.run().unwrap();
    assert_eq!(cpu.pc(), 0);
}

#[test]
fn load_assembly_reports_line_and_column() {
    let mut cpu = Cpu::new();
    cpu.load_assembly("set 0 1").unwrap();
    let error = cpu.load_assembly("set 0 1\n\n   bad 1 2\nhlt").unwrap_err();
    assert_eq!(error, AssemblyError { line: 3, kind: Mismatch::UnknownOpcode, column: 0 });
    // The program loaded before is still there.
    cpu.run().unwrap();
    assert_eq!(cpu.registers()[0], 1);
}

#[test]
fn output_is_written_in_decimal_without_line_end() {
    let mut cpu = Cpu::new();
    cpu.load_assembly("set 0 12\nsto 0 0\nset 1 0\nsto 1 0\nmul 2 0r 100\nsto 2 0\nhlt").unwrap();
    cpu.run().unwrap();
    assert_eq!(cpu.output(), "1201200");
    assert_eq!(cpu.take_output(), "1201200");
    assert_eq!(cpu.output(), "");
    assert_eq!(cpu.registers()[2], 1200);
}

#[test]
fn input_is_read_line_by_line() {
    let mut cpu = Cpu::new();
    cpu.load_assembly("sti 0 0\nsti 1 0\nadd 2 0r 1r\nsto 2 0\nhlt").unwrap();
    cpu.push_input("40");
    cpu.push_input("002");
    assert!(!cpu.awaits_input());
    cpu.run().unwrap();
    assert_eq!(cpu.state(), State::Halting);
    assert_eq!(cpu.registers()[0], 40);
    assert_eq!(cpu.registers()[1], 2);
    assert_eq!(cpu.output(), "42");
}

#[test]
fn run_waits_for_input_that_is_not_there() {
    let mut cpu = Cpu::new();
    cpu.load_assembly("set 1 5\nsti 0 0\nsto 0 0\nhlt").unwrap();
    cpu.run().unwrap();
    assert_eq!(cpu.state(), State::Running);
    assert_eq!(cpu.pc(), 1);
    assert!(cpu.awaits_input());
    assert!(!cpu.ready());
    // Without a line the read itself fails.
    assert_eq!(cpu.step(), Err(Fault::IoFailure));
    assert_eq!(cpu.pc(), 1);

    cpu.push_input("17");
    assert!(!cpu.awaits_input());
    cpu.run().unwrap();
    assert_eq!(cpu.state(), State::Halting);
    assert_eq!(cpu.output(), "17");
}

#[test]
fn input_that_is_no_number_is_an_io_failure() {
    for line in ["", "abc", "12x", " 12", "-1", "+5", "12\n", "99999999999999999999999999"] {
        let mut cpu = Cpu::new();
        cpu.load_assembly("sti 0 0\nhlt").unwrap();
        cpu.push_input(line);
        assert_eq!(cpu.run(), Err(Fault::IoFailure), "line {:?}", line);
        assert_eq!(cpu.pc(), 0);
        assert_eq!(cpu.registers()[0], 0);
    }
    let mut cpu = Cpu::new();
    cpu.push_input("5");
    let read = Instruction::from([0x50, 0x90, 0, 0]);
    assert_eq!(cpu.process_instruction(read), Err(Fault::OutOfBounds));
    // The line is still there for a read that names a register.
    cpu.process_instruction(Instruction::from([0x50, 3, 0, 0])).unwrap();
    assert_eq!(cpu.registers()[3], 5);
}

#[test]
fn largest_word_is_read_and_written() {
    let mut cpu = Cpu::new();
    let text = usize::MAX.to_string();
    cpu.load_assembly("sti 0 0\nsto 0 0\nhlt").unwrap();
    cpu.push_input(&text);
    cpu.run().unwrap();
    assert_eq!(cpu.registers()[0], usize::MAX);
    assert_eq!(cpu.output(), text);
}
