//! Tests of the virtual machine: tape motion, cell arithmetic, loops, I/O,
//! and whole runs.

use btf::BrainFuckProgram;
use btf::CellKind;
use btf::InputBuffer;
use btf::VMError;
use btf::VirtualMachine;

/// Fuel enough for every terminating program in these tests.
const PLENTY: usize = 1_000_000;

fn program_from(content: &str) -> BrainFuckProgram {
    BrainFuckProgram::new("my-temporary-note.txt".to_string(), content.to_string())
}

fn validated_program_from(content: &str) -> BrainFuckProgram {
    let mut program = program_from(content);
    let brackets = program.validate_brackets().unwrap();
    program.set_brackets_map(brackets);
    program
}

#[test]
fn test_default_new_vm() {
    let program = program_from("");

    let default_vm: VirtualMachine<u8> = VirtualMachine::new(&program, None, None);
    assert_eq!(default_vm.tape_len(), 3000);
    assert_eq!(default_vm.head(), 0);
    assert!(!default_vm.adjust_tape());
}

#[test]
fn test_new_vm() {
    let program = program_from("");

    let vm: VirtualMachine<u8> = VirtualMachine::new(&program, Some(100), Some(true));
    assert_eq!(vm.tape_len(), 100);
    assert_eq!(vm.head(), 0);
    assert!(vm.adjust_tape());
}

#[test]
fn test_failed_to_get_previous_element_vm() {
    let program = program_from("+[-\n");

    let mut vm: VirtualMachine<u8> = VirtualMachine::new(&program, Some(1), None);
    assert_eq!(
        vm.previous_element(),
        Err(VMError::PreviousElementNotReachanble {
            line: 1,
            position: 1
        })
    );
}

#[test]
fn test_get_previous_element_vm() {
    let program = program_from("");

    let mut vm: VirtualMachine<u8> = VirtualMachine::new(&program, None, None);
    assert_eq!(vm.next_element(), Ok(1));
    assert_eq!(vm.previous_element(), Ok(2));
}

#[test]
fn test_failed_to_get_next_element_vm() {
    let program = program_from("+[-\n");

    let mut vm: VirtualMachine<u8> = VirtualMachine::new(&program, Some(3), None);
    let _ = vm.next_element();
    let _ = vm.next_element();
    assert_eq!(
        vm.next_element(),
        Err(VMError::NextElementNotReachable {
            line: 1,
            position: 3,
        })
    );
}

#[test]
fn test_next_element_vm() {
    let program = program_from("");

    let mut vm: VirtualMachine<u8> = VirtualMachine::new(&program, None, None);
    assert_eq!(vm.next_element(), Ok(1));
}

#[test]
fn test_zero_jump_loop() {
    // With the cell at zero, `[` jumps one past its `]` partner.
    let program = validated_program_from("[-]\n");

    let vm: VirtualMachine<u8> = VirtualMachine::new(&program, None, None);
    assert_eq!(vm.loop_zero_jump(), Ok(3));
}

#[test]
fn test_non_zero_jump_loop() {
    // With the cell at zero, `]` falls through to the next instruction.
    let program = validated_program_from("[-]\n");

    let vm: VirtualMachine<u8> = VirtualMachine::new(&program, None, None);
    assert_eq!(vm.loop_non_zero_jump(), Ok(1));
}

#[test]
fn test_zero_jump_enters_loop_on_nonzero_cell() {
    let program = validated_program_from("[-]");

    let mut vm: VirtualMachine<u8> = VirtualMachine::new(&program, None, None);
    vm.set_cell(1);
    assert_eq!(vm.loop_zero_jump(), Ok(1));
}

#[test]
fn test_wrapping_cell_arithmetic() {
    let mut cell: u8 = 255;
    assert_eq!(cell.wrapping_increment(), 0);
    let mut cell: u8 = 0;
    assert_eq!(cell.wrapping_decrement(), 255);
    let mut cell: u8 = 41;
    cell.wrapping_set_value(42);
    assert_eq!(cell.wrapping_get_value(), 42);
}

#[test]
fn test_increment_256_times_restores_the_cell() {
    let program = program_from("+");
    let mut vm: VirtualMachine<u8> = VirtualMachine::new(&program, Some(1), None);
    vm.set_cell(7);
    for _ in 0..256 {
        let mut cell: u8 = vm.cell_value();
        let incremented = cell.wrapping_increment();
        vm.set_cell(incremented);
    }
    assert_eq!(vm.cell_value(), 7);
}

#[test]
fn test_wrapped_add_and_sub_on_tape() {
    let program = program_from("+-");
    let mut vm: VirtualMachine<u8> = VirtualMachine::new(&program, Some(1), None);
    assert_eq!(vm.wrapped_add(), Ok(1));
    assert_eq!(vm.cell_value(), 1);
    assert_eq!(vm.wrapped_sub(), Ok(2));
    assert_eq!(vm.cell_value(), 0);
    assert_eq!(vm.wrapped_sub(), Ok(3));
    assert_eq!(vm.cell_value(), 255);
}

#[test]
fn test_run_outputs_two() {
    // "++." on a growable tape writes the single byte 2.
    let program = validated_program_from("++.");
    let mut vm: VirtualMachine<u8> = VirtualMachine::new(&program, None, Some(true));
    let mut input = InputBuffer::new(Vec::new());
    let mut output: Vec<u8> = Vec::new();
    assert_eq!(vm.interpret(&mut input, &mut output, PLENTY), Ok(true));
    assert_eq!(output, vec![2]);
}

#[test]
fn test_run_clears_the_cell() {
    // "[-]" drives the current cell from 5 to 0 and does no I/O.
    let program = validated_program_from("[-]");
    let mut vm: VirtualMachine<u8> = VirtualMachine::new(&program, None, None);
    vm.set_cell(5);
    let mut input = InputBuffer::new(Vec::new());
    let mut output: Vec<u8> = Vec::new();
    assert_eq!(vm.interpret(&mut input, &mut output, PLENTY), Ok(true));
    assert_eq!(vm.cell_value(), 0);
    assert!(output.is_empty());
}

#[test]
fn test_tape_overflow_leaves_head_unchanged() {
    // A fixed tape of one cell cannot move right.
    let program = validated_program_from(">");
    let mut vm: VirtualMachine<u8> = VirtualMachine::new(&program, Some(1), None);
    let mut input = InputBuffer::new(Vec::new());
    let mut output: Vec<u8> = Vec::new();
    assert_eq!(
        vm.interpret(&mut input, &mut output, PLENTY),
        Err(VMError::NextElementNotReachable {
            line: 1,
            position: 1
        })
    );
    assert_eq!(vm.head(), 0);
}

#[test]
fn test_tape_underflow_at_first_cell() {
    // A fresh machine cannot move left.
    let program = validated_program_from("<");
    let mut vm: VirtualMachine<u8> = VirtualMachine::new(&program, None, None);
    let mut input = InputBuffer::new(Vec::new());
    let mut output: Vec<u8> = Vec::new();
    assert_eq!(
        vm.interpret(&mut input, &mut output, PLENTY),
        Err(VMError::PreviousElementNotReachanble {
            line: 1,
            position: 1
        })
    );
}

#[test]
fn test_growable_tape_extends_on_demand() {
    let program = validated_program_from(">>>+.");
    let mut vm: VirtualMachine<u8> = VirtualMachine::new(&program, Some(2), Some(true));
    let mut input = InputBuffer::new(Vec::new());
    let mut output: Vec<u8> = Vec::new();
    assert_eq!(vm.interpret(&mut input, &mut output, PLENTY), Ok(true));
    assert_eq!(vm.tape_len(), 4);
    assert_eq!(vm.head(), 3);
    assert_eq!(output, vec![1]);
}

#[test]
fn test_read_consumes_input() {
    let program = validated_program_from(",.,.");
    let mut vm: VirtualMachine<u8> = VirtualMachine::new(&program, None, None);
    let mut input = InputBuffer::new(vec![65, 66]);
    let mut output: Vec<u8> = Vec::new();
    assert_eq!(vm.interpret(&mut input, &mut output, PLENTY), Ok(true));
    assert_eq!(output, vec![65, 66]);
}

#[test]
fn test_read_past_end_of_input_is_an_io_error() {
    let program = validated_program_from(",");
    let mut vm: VirtualMachine<u8> = VirtualMachine::new(&program, None, None);
    let mut input = InputBuffer::new(Vec::new());
    let mut output: Vec<u8> = Vec::new();
    assert_eq!(
        vm.interpret(&mut input, &mut output, PLENTY),
        Err(VMError::IOError {
            line: 1,
            position: 1
        })
    );
}

#[test]
fn test_unvalidated_loop_is_a_malformed_program() {
    // Executing without a bracket map fails at the first loop instruction
    // that has to jump.
    let mut program = program_from("[-]");
    let brackets = program.validate_brackets().unwrap();
    assert_eq!(brackets.len(), 2);
    // The map is not stored yet, so the machine must refuse the jump.
    let mut vm: VirtualMachine<u8> = VirtualMachine::new(&program, None, None);
    let mut input = InputBuffer::new(Vec::new());
    let mut output: Vec<u8> = Vec::new();
    assert_eq!(
        vm.interpret(&mut input, &mut output, PLENTY),
        Err(VMError::MalformedProgram {
            line: 1,
            position: 1
        })
    );
    // After validation is stored, the same source runs to completion.
    program.set_brackets_map(brackets);
    let mut vm: VirtualMachine<u8> = VirtualMachine::new(&program, None, None);
    assert_eq!(vm.interpret(&mut input, &mut output, PLENTY), Ok(true));
}

#[test]
fn test_fuel_runs_out_and_the_run_resumes() {
    let program = validated_program_from("++++.");
    let mut vm: VirtualMachine<u8> = VirtualMachine::new(&program, None, None);
    let mut input = InputBuffer::new(Vec::new());
    let mut output: Vec<u8> = Vec::new();
    assert_eq!(vm.interpret(&mut input, &mut output, 2), Ok(false));
    assert_eq!(vm.instruction_pointer(), 2);
    assert_eq!(vm.interpret(&mut input, &mut output, PLENTY), Ok(true));
    assert_eq!(output, vec![4]);
}

#[test]
fn test_identical_runs_are_identical() {
    // One validated program, two fresh machines, the same input: the
    // outputs and the final tapes agree.
    let program = validated_program_from(",+[-.>,+]");
    let input_bytes: Vec<u8> = vec![3, 2, 1, 0];

    let mut first: VirtualMachine<u8> = VirtualMachine::new(&program, Some(16), None);
    let mut first_input = InputBuffer::new(input_bytes.clone());
    let mut first_output: Vec<u8> = Vec::new();
    let first_result = first.interpret(&mut first_input, &mut first_output, PLENTY);

    let mut second: VirtualMachine<u8> = VirtualMachine::new(&program, Some(16), None);
    let mut second_input = InputBuffer::new(input_bytes);
    let mut second_output: Vec<u8> = Vec::new();
    let second_result = second.interpret(&mut second_input, &mut second_output, PLENTY);

    assert_eq!(first_result, second_result);
    assert_eq!(first_output, second_output);
    assert_eq!(first.tape_values(), second.tape_values());
    assert_eq!(first.head(), second.head());
}

#[test]
fn test_nested_loops_compute_a_product() {
    // Eight times eight plus one: the classic way to spell 65 ("A").
    let program = validated_program_from("++++++++[>++++++++<-]>+.");
    let mut vm: VirtualMachine<u8> = VirtualMachine::new(&program, None, None);
    let mut input = InputBuffer::new(Vec::new());
    let mut output: Vec<u8> = Vec::new();
    assert_eq!(vm.interpret(&mut input, &mut output, PLENTY), Ok(true));
    assert_eq!(output, vec![65]);
}

#[test]
fn test_input_buffer_hands_out_bytes_in_order() {
    let mut input = InputBuffer::new(vec![1, 2]);
    assert_eq!(input.next_byte(), Some(1));
    assert_eq!(input.next_byte(), Some(2));
    assert_eq!(input.next_byte(), None);
}
