//! The mathematical model of the virtual machine: one instruction is a step
//! of a state machine, and a run is the repeated step with a fuel bound.  The
//! executable machine is proved to follow this model exactly, so everything
//! the model guarantees — determinism above all — carries over to it.

use crate::machine::VMError;
use crate::program::is_bracket;
use crate::program::pairs_brackets;
use crate::program::IntructionPosition;
use crate::program::RawInstructions;
use vstd::arithmetic::div_mod::lemma_add_mod_noop;
use vstd::arithmetic::div_mod::lemma_mod_add_multiples_vanish;
use vstd::arithmetic::div_mod::lemma_small_mod;
use vstd::prelude::*;

verus! {

/// Adding one to a byte cell, wrapping past 255 back to 0.
pub open spec fn wrap_inc(b: u8) -> u8 {
    ((b + 1) % 256) as u8
}

/// Subtracting one from a byte cell, wrapping past 0 back to 255.
pub open spec fn wrap_dec(b: u8) -> u8 {
    ((b + 255) % 256) as u8
}

/// The read-only data a machine executes against: the instruction stream,
/// the bracket pairing, and the tape-growth policy.
#[verifier::ext_equal]
pub ghost struct ProgramModel {
    pub instructions: Seq<IntructionPosition>,
    pub brackets_map: Map<usize, usize>,
    pub adjust_tape: bool,
}

/// Everything one step of the machine may read or change: the tape of byte
/// cells, the head, the instruction pointer, the input bytes not yet
/// consumed, and the output bytes emitted so far.
#[verifier::ext_equal]
pub ghost struct MachineState {
    pub tape: Seq<u8>,
    pub head: usize,
    pub instruction_pointer: usize,
    pub input: Seq<u8>,
    pub output: Seq<u8>,
}

/// What a single step does: move to a next state, halt because the
/// instruction pointer has left the program, or fail with an error.
#[verifier::ext_equal]
pub ghost enum StepResult {
    Step { next: MachineState },
    Halt,
    Fail { error: VMError },
}

/// A bounded run's outcome: still running when the fuel ran out, halted, or
/// failed.  The final state is carried along in every case.
#[verifier::ext_equal]
pub ghost enum RunOutcome {
    Running { state: MachineState },
    Halted { state: MachineState },
    Failed { state: MachineState, error: VMError },
}

/// Where a taken jump leads: one past the partner of the bracket at the
/// current instruction.  A pairing that is absent or out of range is a
/// validation/execution inconsistency and fails rather than misbehaving.
pub open spec fn spec_jump(p: ProgramModel, s: MachineState, pi: IntructionPosition) -> StepResult {
    if p.brackets_map.contains_key(s.instruction_pointer) && p.brackets_map[s.instruction_pointer]
        < p.instructions.len() {
        StepResult::Step {
            next: MachineState {
                instruction_pointer: (p.brackets_map[s.instruction_pointer] + 1) as usize,
                ..s
            },
        }
    } else {
        StepResult::Fail {
            error: VMError::MalformedProgram { line: pi.line, position: pi.position },
        }
    }
}

/// One step of the machine, dispatched on the current instruction.
pub open spec fn spec_step(p: ProgramModel, s: MachineState) -> StepResult {
    if s.instruction_pointer >= p.instructions.len() {
        StepResult::Halt
    } else {
        let pi = p.instructions[s.instruction_pointer as int];
        let next_ip = (s.instruction_pointer + 1) as usize;
        match pi.instruction {
            RawInstructions::IncrementDataPointer => {
                if s.head + 1 == s.tape.len() {
                    if p.adjust_tape {
                        StepResult::Step {
                            next: MachineState {
                                tape: s.tape.push(0),
                                head: (s.head + 1) as usize,
                                instruction_pointer: next_ip,
                                ..s
                            },
                        }
                    } else {
                        StepResult::Fail {
                            error: VMError::NextElementNotReachable {
                                line: pi.line,
                                position: pi.position,
                            },
                        }
                    }
                } else {
                    StepResult::Step {
                        next: MachineState {
                            head: (s.head + 1) as usize,
                            instruction_pointer: next_ip,
                            ..s
                        },
                    }
                }
            },
            RawInstructions::DecrementDataPointer => {
                if s.head == 0 {
                    StepResult::Fail {
                        error: VMError::PreviousElementNotReachanble {
                            line: pi.line,
                            position: pi.position,
                        },
                    }
                } else {
                    StepResult::Step {
                        next: MachineState {
                            head: (s.head - 1) as usize,
                            instruction_pointer: next_ip,
                            ..s
                        },
                    }
                }
            },
            RawInstructions::IncrementByte => StepResult::Step {
                next: MachineState {
                    tape: s.tape.update(s.head as int, wrap_inc(s.tape[s.head as int])),
                    instruction_pointer: next_ip,
                    ..s
                },
            },
            RawInstructions::DecrementByte => StepResult::Step {
                next: MachineState {
                    tape: s.tape.update(s.head as int, wrap_dec(s.tape[s.head as int])),
                    instruction_pointer: next_ip,
                    ..s
                },
            },
            RawInstructions::OutputByte => StepResult::Step {
                next: MachineState {
                    output: s.output.push(s.tape[s.head as int]),
                    instruction_pointer: next_ip,
                    ..s
                },
            },
            RawInstructions::AcceptByte => {
                if s.input.len() == 0 {
                    StepResult::Fail {
                        error: VMError::IOError { line: pi.line, position: pi.position },
                    }
                } else {
                    StepResult::Step {
                        next: MachineState {
                            tape: s.tape.update(s.head as int, s.input[0]),
                            input: s.input.drop_first(),
                            instruction_pointer: next_ip,
                            ..s
                        },
                    }
                }
            },
            RawInstructions::ZeroJump => {
                if s.tape[s.head as int] == 0 {
                    spec_jump(p, s, pi)
                } else {
                    StepResult::Step {
                        next: MachineState { instruction_pointer: next_ip, ..s },
                    }
                }
            },
            RawInstructions::NonZeroJump => {
                if s.tape[s.head as int] != 0 {
                    spec_jump(p, s, pi)
                } else {
                    StepResult::Step {
                        next: MachineState { instruction_pointer: next_ip, ..s },
                    }
                }
            },
        }
    }
}

/// At most `fuel` steps of the machine from state `s`.
pub open spec fn spec_run(p: ProgramModel, s: MachineState, fuel: nat) -> RunOutcome
    decreases fuel,
{
    if fuel == 0 {
        RunOutcome::Running { state: s }
    } else {
        match spec_step(p, s) {
            StepResult::Step { next } => spec_run(p, next, (fuel - 1) as nat),
            StepResult::Halt => RunOutcome::Halted { state: s },
            StepResult::Fail { error } => RunOutcome::Failed { state: s, error },
        }
    }
}

/// A run of `a + b` steps is a run of `a` steps continued, if still running,
/// by one of `b` steps.
pub proof fn lemma_run_split(p: ProgramModel, s: MachineState, a: nat, b: nat)
    ensures
        spec_run(p, s, a + b) == match spec_run(p, s, a) {
            RunOutcome::Running { state } => spec_run(p, state, b),
            RunOutcome::Halted { state } => RunOutcome::Halted { state },
            RunOutcome::Failed { state, error } => RunOutcome::Failed { state, error },
        },
    decreases a,
{
    if a > 0 {
        match spec_step(p, s) {
            StepResult::Step { next } => {
                lemma_run_split(p, next, (a - 1) as nat, b);
            },
            _ => {},
        }
    }
}

/// Once a run has halted or failed, giving it more fuel changes nothing.
pub proof fn lemma_run_stable(p: ProgramModel, s: MachineState, n1: nat, n2: nat)
    requires
        n1 <= n2,
        !(spec_run(p, s, n1) is Running),
    ensures
        spec_run(p, s, n2) == spec_run(p, s, n1),
{
    lemma_run_split(p, s, n1, (n2 - n1) as nat);
}

/// The machine is deterministic: two runs of the same program from the same
/// state — same tape, same input — that both come to an end come to the same
/// end, with the same final state (and so the same output) and, if they
/// failed, the same error.
pub proof fn lemma_run_deterministic(p: ProgramModel, s: MachineState, n1: nat, n2: nat)
    requires
        !(spec_run(p, s, n1) is Running),
        !(spec_run(p, s, n2) is Running),
    ensures
        spec_run(p, s, n1) == spec_run(p, s, n2),
{
    if n1 <= n2 {
        lemma_run_stable(p, s, n1, n2);
    } else {
        lemma_run_stable(p, s, n2, n1);
    }
}

/// One step of a machine whose bracket map really pairs its brackets — the
/// map `validate_brackets` builds — never fails for a malformed program:
/// that error is reserved for running unvalidated programs.
pub proof fn lemma_validated_step_never_malformed(p: ProgramModel, s: MachineState)
    requires
        pairs_brackets(p.instructions, p.brackets_map),
    ensures
        match spec_step(p, s) {
            StepResult::Fail { error } => !(error is MalformedProgram),
            _ => true,
        },
{
    if s.instruction_pointer < p.instructions.len() {
        let pi = p.instructions[s.instruction_pointer as int];
        if is_bracket(pi.instruction) {
            assert(p.brackets_map.contains_key(s.instruction_pointer));
            assert(p.brackets_map.contains_key(p.brackets_map[s.instruction_pointer]));
        }
    }
}

/// A whole run of a validated program never reports it malformed.
pub proof fn lemma_validated_run_never_malformed(p: ProgramModel, s: MachineState, fuel: nat)
    requires
        pairs_brackets(p.instructions, p.brackets_map),
    ensures
        match spec_run(p, s, fuel) {
            RunOutcome::Failed { state, error } => !(error is MalformedProgram),
            _ => true,
        },
    decreases fuel,
{
    if fuel > 0 {
        lemma_validated_step_never_malformed(p, s);
        match spec_step(p, s) {
            StepResult::Step { next } => {
                lemma_validated_run_never_malformed(p, next, (fuel - 1) as nat);
            },
            _ => {},
        }
    }
}

/// `n` wrapping increments in a row, starting from `b`.
pub open spec fn iter_inc(b: u8, n: nat) -> u8
    decreases n,
{
    if n == 0 {
        b
    } else {
        wrap_inc(iter_inc(b, (n - 1) as nat))
    }
}

/// Wrapping increment adds modulo 256.
pub proof fn lemma_iter_inc_mod(b: u8, n: nat)
    ensures
        iter_inc(b, n) == ((b + n) % 256) as u8,
    decreases n,
{
    if n == 0 {
        lemma_small_mod(b as nat, 256);
    } else {
        lemma_iter_inc_mod(b, (n - 1) as nat);
        lemma_add_mod_noop(b + n - 1, 1, 256);
        lemma_small_mod(1, 256);
    }
}

/// Increment and decrement undo one another on every byte.
pub proof fn lemma_dec_undoes_inc(b: u8)
    ensures
        wrap_dec(wrap_inc(b)) == b,
        wrap_inc(wrap_dec(b)) == b,
{
    lemma_add_mod_noop(b + 1, 255, 256);
    lemma_add_mod_noop(b + 255, 1, 256);
    lemma_small_mod(1, 256);
    lemma_small_mod(255, 256);
    lemma_mod_add_multiples_vanish(b as int, 256);
    lemma_small_mod(b as nat, 256);
}

/// 256 increments in a row return a cell to its original value: the cell
/// arithmetic is arithmetic modulo 256.
pub proof fn lemma_inc_cycle(b: u8)
    ensures
        iter_inc(b, 256) == b,
{
    lemma_iter_inc_mod(b, 256);
    lemma_mod_add_multiples_vanish(b as int, 256);
    lemma_small_mod(b as nat, 256);
}

} // verus!
