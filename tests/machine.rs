use chip8_vm::instruction::{combine, decode, nibbles, Instruction};
use chip8_vm::machine::CPU;
use chip8_vm::state::{Fault, LoadError, Progress};

fn machine_with(program: &[u8], address: usize) -> CPU {
    let mut cpu = CPU::new();
    assert_eq!(cpu.write_memory(address, program), Ok(()));
    cpu
}

#[test]
fn new_machine_is_zeroed() {
    let cpu = CPU::new();
    assert_eq!(cpu.registers(), [0u8; 16]);
    assert_eq!(cpu.program_counter(), 0);
    assert_eq!(cpu.stack_pointer(), 0);
    assert_eq!(cpu.memory_at(0), 0);
    assert_eq!(cpu.memory_at(4095), 0);
}

#[test]
fn two_additions_then_halt() {
    let mut cpu = machine_with(&[0x80, 0x14, 0x80, 0x14, 0x00, 0x00], 0);
    cpu.set_register(0, 5).unwrap();
    cpu.set_register(1, 10).unwrap();
    assert_eq!(cpu.run(), Ok(()));
    assert_eq!(cpu.register(0), 25);
    assert_eq!(cpu.register(15), 0);
    assert_eq!(cpu.program_counter(), 6);
}

#[test]
fn subroutine_called_twice() {
    let mut cpu = machine_with(&[0x21, 0x00, 0x21, 0x00, 0x00, 0x00], 0);
    cpu.write_memory(0x100, &[0x80, 0x14, 0x80, 0x14, 0x00, 0xEE]).unwrap();
    cpu.set_register(0, 5).unwrap();
    cpu.set_register(1, 10).unwrap();
    assert_eq!(cpu.run(), Ok(()));
    assert_eq!(cpu.register(0), 45);
    assert_eq!(cpu.register(15), 0);
    assert_eq!(cpu.stack_pointer(), 0);
}

#[test]
fn add_without_carry() {
    let mut cpu = CPU::new();
    cpu.set_register(3, 100).unwrap();
    cpu.set_register(7, 155).unwrap();
    cpu.set_register(15, 9).unwrap();
    cpu.add_xy(3, 7);
    assert_eq!(cpu.register(3), 255);
    assert_eq!(cpu.register(7), 155);
    assert_eq!(cpu.register(15), 0);
}

#[test]
fn add_with_carry_wraps() {
    let mut cpu = CPU::new();
    cpu.set_register(2, 200).unwrap();
    cpu.set_register(4, 100).unwrap();
    cpu.add_xy(2, 4);
    assert_eq!(cpu.register(2), 44);
    assert_eq!(cpu.register(15), 1);
}

#[test]
fn add_exactly_256_gives_zero_and_carry() {
    let mut cpu = CPU::new();
    cpu.set_register(0, 255).unwrap();
    cpu.set_register(1, 1).unwrap();
    cpu.add_xy(0, 1);
    assert_eq!(cpu.register(0), 0);
    assert_eq!(cpu.register(15), 1);
}

#[test]
fn add_register_to_itself() {
    let mut cpu = CPU::new();
    cpu.set_register(5, 128).unwrap();
    cpu.add_xy(5, 5);
    assert_eq!(cpu.register(5), 0);
    assert_eq!(cpu.register(15), 1);
}

#[test]
fn add_into_flag_register_keeps_flag() {
    let mut cpu = CPU::new();
    cpu.set_register(15, 3).unwrap();
    cpu.set_register(0, 4).unwrap();
    cpu.add_xy(15, 0);
    assert_eq!(cpu.register(15), 0);
}

#[test]
fn add_through_instruction_word() {
    let mut cpu = machine_with(&[0x8A, 0xB4, 0x00, 0x00], 0);
    cpu.set_register(0xA, 250).unwrap();
    cpu.set_register(0xB, 10).unwrap();
    assert_eq!(cpu.run(), Ok(()));
    assert_eq!(cpu.register(0xA), 4);
    assert_eq!(cpu.register(15), 1);
}

#[test]
fn call_then_return_restores_program_counter() {
    let mut cpu = machine_with(&[0x23, 0x40], 0);
    cpu.write_memory(0x340, &[0x00, 0xEE]).unwrap();
    assert_eq!(cpu.step(), Ok(Progress::Running));
    assert_eq!(cpu.program_counter(), 0x340);
    assert_eq!(cpu.stack_pointer(), 1);
    assert_eq!(cpu.step(), Ok(Progress::Running));
    assert_eq!(cpu.program_counter(), 2);
    assert_eq!(cpu.stack_pointer(), 0);
}

#[test]
fn call_and_ret_handlers() {
    let mut cpu = CPU::new();
    assert_eq!(cpu.call(0xABC), Ok(()));
    assert_eq!(cpu.program_counter(), 0xABC);
    assert_eq!(cpu.stack_pointer(), 1);
    assert_eq!(cpu.ret(), Ok(()));
    assert_eq!(cpu.program_counter(), 0);
    assert_eq!(cpu.stack_pointer(), 0);
}

#[test]
fn sixteen_calls_fit_and_seventeenth_overflows() {
    let mut cpu = CPU::new();
    for i in 0..16u16 {
        assert_eq!(cpu.call(0x100 + i), Ok(()));
    }
    assert_eq!(cpu.stack_pointer(), 16);
    assert_eq!(cpu.call(0x200), Err(Fault::StackOverflow));
    assert_eq!(cpu.stack_pointer(), 16);
    assert_eq!(cpu.program_counter(), 0x10F);
}

fn nested_calls(depth: u16) -> CPU {
    let mut program = Vec::new();
    for k in 0..depth {
        let target = 2 * k + 2;
        program.push(0x20 | (target >> 8) as u8);
        program.push((target & 0xFF) as u8);
    }
    program.push(0x00);
    program.push(0x00);
    machine_with(&program, 0)
}

#[test]
fn run_with_sixteen_nested_calls_halts() {
    let mut cpu = nested_calls(16);
    assert_eq!(cpu.run(), Ok(()));
    assert_eq!(cpu.stack_pointer(), 16);
    assert_eq!(cpu.program_counter(), 34);
}

#[test]
fn run_with_seventeen_nested_calls_overflows() {
    let mut cpu = nested_calls(17);
    assert_eq!(cpu.run(), Err(Fault::StackOverflow));
    assert_eq!(cpu.stack_pointer(), 16);
}

#[test]
fn return_on_empty_stack_underflows() {
    let mut cpu = CPU::new();
    assert_eq!(cpu.ret(), Err(Fault::StackUnderflow));
    assert_eq!(cpu.program_counter(), 0);
    let mut cpu = machine_with(&[0x00, 0xEE], 0);
    assert_eq!(cpu.run(), Err(Fault::StackUnderflow));
    assert_eq!(cpu.program_counter(), 2);
}

#[test]
fn halt_leaves_state_but_program_counter() {
    let mut cpu = machine_with(&[0x80, 0x14, 0x00, 0x00, 0x80, 0x14], 0);
    cpu.set_register(0, 1).unwrap();
    cpu.set_register(1, 2).unwrap();
    assert_eq!(cpu.step(), Ok(Progress::Running));
    let before = cpu.registers();
    assert_eq!(cpu.step(), Ok(Progress::Halted));
    assert_eq!(cpu.registers(), before);
    assert_eq!(cpu.program_counter(), 4);
    assert_eq!(cpu.stack_pointer(), 0);
}

#[test]
fn halt_on_zeroed_machine() {
    let mut cpu = CPU::new();
    assert_eq!(cpu.run(), Ok(()));
    assert_eq!(cpu.program_counter(), 2);
    assert_eq!(cpu.registers(), [0u8; 16]);
}

#[test]
fn unknown_words_are_unimplemented() {
    for word in [0x1234u16, 0x00E0, 0x8015, 0x0001, 0x01EE, 0xF000, 0x80E5] {
        let mut cpu = machine_with(&[(word >> 8) as u8, (word & 0xFF) as u8], 0);
        assert_eq!(cpu.run(), Err(Fault::UnimplementedInstruction(word)));
        assert_eq!(cpu.program_counter(), 2);
    }
}

#[test]
fn fetch_past_memory_end_faults() {
    let mut cpu = machine_with(&[0x2F, 0xFF], 0);
    assert_eq!(cpu.run(), Err(Fault::OutOfBoundsFetch));
    assert_eq!(cpu.program_counter(), 0xFFF);
    assert_eq!(cpu.stack_pointer(), 1);
}

#[test]
fn fetch_of_last_two_bytes_works() {
    let mut cpu = machine_with(&[0x2F, 0xFE], 0);
    cpu.write_memory(0xFFE, &[0x00, 0x00]).unwrap();
    assert_eq!(cpu.run(), Ok(()));
    assert_eq!(cpu.program_counter(), 0x1000);
}

#[test]
fn write_memory_bounds() {
    let mut cpu = CPU::new();
    assert_eq!(cpu.write_memory(4095, &[1, 2]), Err(LoadError::AddressOutOfRange));
    assert_eq!(cpu.memory_at(4095), 0);
    assert_eq!(cpu.write_memory(5000, &[]), Err(LoadError::AddressOutOfRange));
    assert_eq!(cpu.write_memory(4094, &[1, 2]), Ok(()));
    assert_eq!(cpu.memory_at(4094), 1);
    assert_eq!(cpu.memory_at(4095), 2);
    assert_eq!(cpu.write_memory(4096, &[]), Ok(()));
    assert_eq!(cpu.write_memory(usize::MAX, &[1]), Err(LoadError::AddressOutOfRange));
}

#[test]
fn set_register_bounds() {
    let mut cpu = CPU::new();
    assert_eq!(cpu.set_register(16, 1), Err(LoadError::RegisterOutOfRange));
    assert_eq!(cpu.registers(), [0u8; 16]);
    assert_eq!(cpu.set_register(15, 7), Ok(()));
    assert_eq!(cpu.register(15), 7);
}

#[test]
fn read_opcode_is_high_byte_first() {
    let cpu = machine_with(&[0x12, 0x34], 0);
    assert_eq!(cpu.read_opcode(), 0x1234);
}

#[test]
fn decode_recognized_patterns() {
    assert_eq!(decode(0x0000), Instruction::Halt);
    assert_eq!(decode(0x00EE), Instruction::Return);
    assert_eq!(decode(0x2ABC), Instruction::Call(0xABC));
    assert_eq!(decode(0x8A34), Instruction::AddXY(0xA, 0x3));
    assert_eq!(decode(0x8A35), Instruction::Unknown(0x8A35));
}

#[test]
fn words_and_nibbles() {
    assert_eq!(combine(0xAB, 0xCD), 0xABCD);
    assert_eq!(combine(0x00, 0xFF), 0x00FF);
    assert_eq!(nibbles(0xABCD), (0xA, 0xB, 0xC, 0xD));
}
