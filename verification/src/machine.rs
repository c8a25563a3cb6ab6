//! The virtual machine: a tape of byte cells, a head, and an instruction
//! pointer walking a parsed program.  Every mutating operation is proved to
//! match one step of the model in `semantics`.

use crate::program::BrainFuckProgram;
use crate::program::RawInstructions;
use crate::semantics::lemma_run_split;
use crate::semantics::spec_run;
use crate::semantics::spec_step;
use crate::semantics::wrap_dec;
use crate::semantics::wrap_inc;
use crate::semantics::MachineState;
use crate::semantics::ProgramModel;
use crate::semantics::RunOutcome;
use crate::semantics::StepResult;
use vstd::prelude::*;

verus! {

broadcast use vstd::std_specs::hash::group_hash_axioms;

/// Provide enum of errors for Virtual Machine.
#[derive(Debug, Clone, Copy, PartialEq, Eq, Structural)]
pub enum VMError {
    /// The head would move past the end of a fixed tape.
    NextElementNotReachable { line: usize, position: usize },
    /// The head would move before the first cell.
    PreviousElementNotReachanble { line: usize, position: usize },
    /// Reading one byte of input failed; the input was exhausted.
    IOError { line: usize, position: usize },
    /// A loop instruction had no usable partner in the bracket map: the
    /// program was executed without (or against a stale) validation.
    MalformedProgram { line: usize, position: usize },
}

/// Provide trait for cell in Virtual Machine: anything that stands for one
/// byte with wrapping arithmetic can serve as a tape cell.
pub trait CellKind: Sized + Copy {
    /// The byte the cell stands for.
    spec fn byte_value(&self) -> u8;

    /// A fresh cell holding zero.
    fn zero() -> (r: Self)
        ensures
            r.byte_value() == 0,
    ;

    /// Wrapper to increase value by 1 in the cell.
    fn wrapping_increment(&mut self) -> (r: Self)
        ensures
            r.byte_value() == wrap_inc(old(self).byte_value()),
            final(self).byte_value() == old(self).byte_value(),
    ;

    /// Wrapper to decrease value by 1 in the cell.
    fn wrapping_decrement(&mut self) -> (r: Self)
        ensures
            r.byte_value() == wrap_dec(old(self).byte_value()),
            final(self).byte_value() == old(self).byte_value(),
    ;

    /// Wrapper to set value in the cell.
    fn wrapping_set_value(&mut self, value: u8)
        ensures
            final(self).byte_value() == value,
    ;

    /// Wrapper to get value from the cell.
    fn wrapping_get_value(&self) -> (r: u8)
        ensures
            r == self.byte_value(),
    ;
}

/// Provide implementation for u8 type cell in Virtual Machine.
impl CellKind for u8 {
    open spec fn byte_value(&self) -> u8 {
        *self
    }

    fn zero() -> (r: Self) {
        0
    }

    fn wrapping_increment(&mut self) -> (r: Self) {
        proof {
            if *self == 255 {
                vstd::arithmetic::div_mod::lemma_mod_self_0(256);
            } else {
                vstd::arithmetic::div_mod::lemma_small_mod((*self + 1) as nat, 256);
            }
        }
        self.wrapping_add(1)
    }

    fn wrapping_decrement(&mut self) -> (r: Self) {
        proof {
            if *self == 0 {
                vstd::arithmetic::div_mod::lemma_small_mod(255, 256);
            } else {
                vstd::arithmetic::div_mod::lemma_mod_add_multiples_vanish(*self - 1, 256);
                vstd::arithmetic::div_mod::lemma_small_mod((*self - 1) as nat, 256);
            }
        }
        self.wrapping_sub(1)
    }

    fn wrapping_set_value(&mut self, value: u8) {
        *self = value;
    }

    fn wrapping_get_value(&self) -> (r: u8) {
        *self
    }
}

/// The byte-input source the machine reads from: a buffer handed over whole,
/// consumed one byte at a time.
pub struct InputBuffer {
    bytes: Vec<u8>,
    cursor: usize,
}

impl InputBuffer {
    /// The cursor has not run past the end.
    pub closed spec fn wf(&self) -> bool {
        self.cursor <= self.bytes@.len()
    }

    /// The bytes not yet consumed.
    pub closed spec fn remaining(&self) -> Seq<u8> {
        self.bytes@.skip(self.cursor as int)
    }

    /// Wraps the bytes the machine will read.
    pub fn new(bytes: Vec<u8>) -> (r: InputBuffer)
        ensures
            r.wf(),
            r.remaining() == bytes@,
    {
        let r = InputBuffer { bytes, cursor: 0 };
        proof {
            assert(r.remaining() =~= r.bytes@);
        }
        r
    }

    /// Takes the next byte, or reports that the input is exhausted.
    pub fn next_byte(&mut self) -> (r: Option<u8>)
        requires
            old(self).wf(),
        ensures
            final(self).wf(),
            match r {
                Some(b) => old(self).remaining().len() > 0 && b == old(self).remaining()[0]
                    && final(self).remaining() == old(self).remaining().drop_first(),
                None => old(self).remaining().len() == 0 && *final(self) == *old(self),
            },
    {
        if self.cursor < self.bytes.len() {
            let b = self.bytes[self.cursor];
            self.cursor = self.cursor + 1;
            proof {
                assert(self.remaining() =~= old(self).remaining().drop_first());
            }
            Some(b)
        } else {
            None
        }
    }
}

/// Provide structure for Virtual Machine.
#[derive(Debug)]
pub struct VirtualMachine<'a, T> {
    /// The collection to store elements of the tape.
    tape: Vec<T>,
    /// Whether to allow adjust size of the tape of not.
    adjust_tape: bool,
    /// The pointer to the current element of tape.
    head: usize,
    /// The pointer to the current instruction.
    instruction_pointer: usize,
    /// BrainFuck Program.
    program: &'a BrainFuckProgram,
}

/// The tape size a machine gets when none is asked for.
pub open spec fn spec_tape_size(size: Option<usize>) -> nat {
    match size {
        Some(n) => n as nat,
        None => 3000,
    }
}

impl<'a, T: CellKind> VirtualMachine<'a, T> {
    /// The tape as the bytes its cells stand for.
    pub closed spec fn spec_tape(&self) -> Seq<u8> {
        self.tape@.map_values(|cell: T| cell.byte_value())
    }

    /// The cell the head points at.
    pub closed spec fn spec_head(&self) -> usize {
        self.head
    }

    /// The instruction about to execute.
    pub closed spec fn spec_ip(&self) -> usize {
        self.instruction_pointer
    }

    /// Whether the tape grows on demand instead of overflowing.
    pub closed spec fn spec_adjust(&self) -> bool {
        self.adjust_tape
    }

    /// The program the machine runs.
    pub closed spec fn spec_program(&self) -> BrainFuckProgram {
        *self.program
    }

    /// The read-only data of the run, as the model sees it.
    pub open spec fn model(&self) -> ProgramModel {
        ProgramModel {
            instructions: self.spec_program().spec_instructions(),
            brackets_map: self.spec_program().spec_brackets_map(),
            adjust_tape: self.spec_adjust(),
        }
    }

    /// The machine's state joined with the input not yet read and the output
    /// written so far.
    pub open spec fn state(&self, input: Seq<u8>, output: Seq<u8>) -> MachineState {
        MachineState {
            tape: self.spec_tape(),
            head: self.spec_head(),
            instruction_pointer: self.spec_ip(),
            input,
            output,
        }
    }

    /// Well-formed: the head stands on a cell of the tape.
    pub open spec fn wf(&self) -> bool {
        self.spec_head() < self.spec_tape().len()
    }

    /// Create VM based on the size, by default 3000 cells, all zero.  With
    /// `adjust_tape` the tape later grows on demand instead of overflowing.
    pub fn new(
        program: &'a BrainFuckProgram,
        size: Option<usize>,
        adjust_tape: Option<bool>,
    ) -> (r: VirtualMachine<'a, T>)
        requires
            size matches Some(n) ==> n > 0,
        ensures
            r.wf(),
            r.spec_tape() == Seq::new(spec_tape_size(size), |i: int| 0u8),
            r.spec_head() == 0,
            r.spec_ip() == 0,
            r.model() == (ProgramModel {
                instructions: program.spec_instructions(),
                brackets_map: program.spec_brackets_map(),
                adjust_tape: adjust_tape == Some(true),
            }),
    {
        let tape_size = match size {
            Some(n) => n,
            None => 3000,
        };
        let mut tape: Vec<T> = Vec::new();
        while tape.len() < tape_size
            invariant
                tape@.len() <= tape_size,
                forall|j: int| 0 <= j < tape@.len() ==> (#[trigger] tape@[j]).byte_value() == 0,
            decreases tape_size - tape.len(),
        {
            tape.push(T::zero());
        }
        let r = VirtualMachine {
            tape,
            adjust_tape: match adjust_tape {
                Some(b) => b,
                None => false,
            },
            head: 0,
            instruction_pointer: 0,
            program,
        };
        proof {
            assert(r.spec_tape() =~= Seq::new(spec_tape_size(size), |i: int| 0u8));
        }
        r
    }

    /// The number of cells the tape holds now.
    pub fn tape_len(&self) -> (r: usize)
        ensures
            r == self.spec_tape().len(),
    {
        self.tape.len()
    }

    /// Where the head stands.
    pub fn head(&self) -> (r: usize)
        ensures
            r == self.spec_head(),
    {
        self.head
    }

    /// Which instruction executes next.
    pub fn instruction_pointer(&self) -> (r: usize)
        ensures
            r == self.spec_ip(),
    {
        self.instruction_pointer
    }

    /// Whether the tape grows on demand.
    pub fn adjust_tape(&self) -> (r: bool)
        ensures
            r == self.spec_adjust(),
    {
        self.adjust_tape
    }

    /// The byte under the head.
    pub fn cell_value(&self) -> (r: u8)
        requires
            self.wf(),
        ensures
            r == self.spec_tape()[self.spec_head() as int],
    {
        self.tape[self.head].wrapping_get_value()
    }

    /// Stores a byte in the cell under the head.
    pub fn set_cell(&mut self, value: u8)
        requires
            old(self).wf(),
        ensures
            final(self).wf(),
            final(self).model() == old(self).model(),
            final(self).spec_tape() == old(self).spec_tape().update(
                old(self).spec_head() as int,
                value,
            ),
            final(self).spec_head() == old(self).spec_head(),
            final(self).spec_ip() == old(self).spec_ip(),
    {
        let mut cell = self.tape[self.head];
        cell.wrapping_set_value(value);
        self.tape.set(self.head, cell);
        proof {
            assert(self.spec_tape() =~= old(self).spec_tape().update(
                old(self).spec_head() as int,
                value,
            ));
        }
    }

    /// The whole tape as bytes.
    pub fn tape_values(&self) -> (r: Vec<u8>)
        ensures
            r@ == self.spec_tape(),
    {
        let mut values: Vec<u8> = Vec::new();
        let mut i: usize = 0;
        while i < self.tape.len()
            invariant
                i <= self.tape@.len(),
                values@.len() == i,
                forall|j: int| 0 <= j < i ==> values@[j] == self.spec_tape()[j],
            decreases self.tape@.len() - i,
        {
            values.push(self.tape[i].wrapping_get_value());
            i = i + 1;
        }
        proof {
            assert(values@ =~= self.spec_tape());
        }
        values
    }

    /// Go to the next element in tape.  On a fixed tape that has no next
    /// element this fails before moving the head; an adjustable tape grows by
    /// one zero cell instead.
    pub fn next_element(&mut self) -> (r: Result<usize, VMError>)
        requires
            old(self).wf(),
            old(self).spec_ip() < usize::MAX,
            !old(self).spec_adjust() && old(self).spec_head() + 1 == old(self).spec_tape().len()
                ==> old(self).spec_ip() < old(self).model().instructions.len(),
        ensures
            final(self).wf(),
            final(self).model() == old(self).model(),
            if old(self).spec_head() + 1 == old(self).spec_tape().len() && !old(self).spec_adjust() {
                let pi = old(self).model().instructions[old(self).spec_ip() as int];
                r == Err::<usize, VMError>(
                    VMError::NextElementNotReachable { line: pi.line, position: pi.position },
                ) && *final(self) == *old(self)
            } else {
                r == Ok::<usize, VMError>((old(self).spec_ip() + 1) as usize) && final(self).spec_head() == old(self).spec_head() + 1 && final(self).spec_ip() == old(self).spec_ip() + 1 && final(self).spec_tape() == if old(self).spec_head() + 1 == old(self).spec_tape().len() {
                    old(self).spec_tape().push(0u8)
                } else {
                    old(self).spec_tape()
                }
            },
    {
        let tape_len = self.tape.len();
        if self.head + 1 == tape_len {
            if self.adjust_tape {
                self.tape.push(T::zero());
                proof {
                    assert(self.spec_tape() =~= old(self).spec_tape().push(0u8));
                }
            } else {
                let instruction = self.program.instructions()[self.instruction_pointer];
                return Err(
                    VMError::NextElementNotReachable {
                        line: instruction.line(),
                        position: instruction.position(),
                    },
                );
            }
        }
        self.head = self.head + 1;
        self.instruction_pointer = self.instruction_pointer + 1;
        Ok(self.instruction_pointer)
    }

    /// Go to the previous element in tape.  At the first cell this fails
    /// without moving the head.
    pub fn previous_element(&mut self) -> (r: Result<usize, VMError>)
        requires
            old(self).wf(),
            old(self).spec_ip() < usize::MAX,
            old(self).spec_head() == 0 ==> old(self).spec_ip() < old(self).model().instructions.len(),
        ensures
            final(self).wf(),
            final(self).model() == old(self).model(),
            if old(self).spec_head() == 0 {
                let pi = old(self).model().instructions[old(self).spec_ip() as int];
                r == Err::<usize, VMError>(
                    VMError::PreviousElementNotReachanble { line: pi.line, position: pi.position },
                ) && *final(self) == *old(self)
            } else {
                r == Ok::<usize, VMError>((old(self).spec_ip() + 1) as usize) && final(self).spec_head() == old(self).spec_head() - 1 && final(self).spec_ip() == old(self).spec_ip() + 1 && final(self).spec_tape() == old(self).spec_tape()
            },
    {
        if self.head == 0 {
            let instruction = self.program.instructions()[self.instruction_pointer];
            return Err(
                VMError::PreviousElementNotReachanble {
                    line: instruction.line(),
                    position: instruction.position(),
                },
            );
        }
        self.head = self.head - 1;
        self.instruction_pointer = self.instruction_pointer + 1;
        Ok(self.instruction_pointer)
    }

    /// Add 1 to the element where head is pointing to, wrapping past 255.
    pub fn wrapped_add(&mut self) -> (r: Result<usize, VMError>)
        requires
            old(self).wf(),
            old(self).spec_ip() < usize::MAX,
        ensures
            final(self).wf(),
            final(self).model() == old(self).model(),
            r == Ok::<usize, VMError>((old(self).spec_ip() + 1) as usize),
            final(self).spec_tape() == old(self).spec_tape().update(
                old(self).spec_head() as int,
                wrap_inc(old(self).spec_tape()[old(self).spec_head() as int]),
            ),
            final(self).spec_head() == old(self).spec_head(),
            final(self).spec_ip() == old(self).spec_ip() + 1,
    {
        let mut cell = self.tape[self.head];
        let incremented = cell.wrapping_increment();
        self.tape.set(self.head, incremented);
        self.instruction_pointer = self.instruction_pointer + 1;
        proof {
            assert(self.spec_tape() =~= old(self).spec_tape().update(
                old(self).spec_head() as int,
                wrap_inc(old(self).spec_tape()[old(self).spec_head() as int]),
            ));
        }
        Ok(self.instruction_pointer)
    }

    /// Subtract 1 from the element where head is pointing to, wrapping past 0.
    pub fn wrapped_sub(&mut self) -> (r: Result<usize, VMError>)
        requires
            old(self).wf(),
            old(self).spec_ip() < usize::MAX,
        ensures
            final(self).wf(),
            final(self).model() == old(self).model(),
            r == Ok::<usize, VMError>((old(self).spec_ip() + 1) as usize),
            final(self).spec_tape() == old(self).spec_tape().update(
                old(self).spec_head() as int,
                wrap_dec(old(self).spec_tape()[old(self).spec_head() as int]),
            ),
            final(self).spec_head() == old(self).spec_head(),
            final(self).spec_ip() == old(self).spec_ip() + 1,
    {
        let mut cell = self.tape[self.head];
        let decremented = cell.wrapping_decrement();
        self.tape.set(self.head, decremented);
        self.instruction_pointer = self.instruction_pointer + 1;
        proof {
            assert(self.spec_tape() =~= old(self).spec_tape().update(
                old(self).spec_head() as int,
                wrap_dec(old(self).spec_tape()[old(self).spec_head() as int]),
            ));
        }
        Ok(self.instruction_pointer)
    }

    /// IO byte read: one byte of input into the cell under the head.  An
    /// exhausted input fails the run.
    pub fn read(&mut self, input: &mut InputBuffer) -> (r: Result<usize, VMError>)
        requires
            old(self).wf(),
            old(input).wf(),
            old(self).spec_ip() < usize::MAX,
            old(input).remaining().len() == 0 ==> old(self).spec_ip() < old(self).model().instructions.len(),
        ensures
            final(self).wf(),
            final(input).wf(),
            final(self).model() == old(self).model(),
            if old(input).remaining().len() == 0 {
                let pi = old(self).model().instructions[old(self).spec_ip() as int];
                r == Err::<usize, VMError>(
                    VMError::IOError { line: pi.line, position: pi.position },
                ) && *final(self) == *old(self) && *final(input) == *old(input)
            } else {
                r == Ok::<usize, VMError>((old(self).spec_ip() + 1) as usize) && final(input).remaining() == old(input).remaining().drop_first() && final(self).spec_tape()
                    == old(self).spec_tape().update(
                    old(self).spec_head() as int,
                    old(input).remaining()[0],
                ) && final(self).spec_head() == old(self).spec_head() && final(self).spec_ip()
                    == old(self).spec_ip() + 1
            },
    {
        match input.next_byte() {
            Some(value) => {
                let mut cell = self.tape[self.head];
                cell.wrapping_set_value(value);
                self.tape.set(self.head, cell);
                self.instruction_pointer = self.instruction_pointer + 1;
                proof {
                    assert(self.spec_tape() =~= old(self).spec_tape().update(
                        old(self).spec_head() as int,
                        old(input).remaining()[0],
                    ));
                }
                Ok(self.instruction_pointer)
            },
            None => {
                let instruction = self.program.instructions()[self.instruction_pointer];
                Err(
                    VMError::IOError {
                        line: instruction.line(),
                        position: instruction.position(),
                    },
                )
            },
        }
    }

    /// IO byte write: the byte under the head is appended to the output
    /// sink.  An in-memory sink always takes it.
    pub fn output(&mut self, writer: &mut Vec<u8>) -> (r: Result<usize, VMError>)
        requires
            old(self).wf(),
            old(self).spec_ip() < usize::MAX,
        ensures
            final(self).wf(),
            final(self).model() == old(self).model(),
            r == Ok::<usize, VMError>((old(self).spec_ip() + 1) as usize),
            final(writer)@ == old(writer)@.push(
                old(self).spec_tape()[old(self).spec_head() as int],
            ),
            final(self).spec_tape() == old(self).spec_tape(),
            final(self).spec_head() == old(self).spec_head(),
            final(self).spec_ip() == old(self).spec_ip() + 1,
    {
        let value = self.tape[self.head].wrapping_get_value();
        writer.push(value);
        self.instruction_pointer = self.instruction_pointer + 1;
        Ok(self.instruction_pointer)
    }

    /// Where a `[` leads: past its partner when the cell under the head is
    /// zero, to the next instruction otherwise.  A missing or out-of-range
    /// partner fails.
    pub fn loop_zero_jump(&self) -> (r: Result<usize, VMError>)
        requires
            self.wf(),
            self.spec_ip() < self.model().instructions.len(),
        ensures
            ({
                let pi = self.model().instructions[self.spec_ip() as int];
                let map = self.model().brackets_map;
                if self.spec_tape()[self.spec_head() as int] == 0 {
                    if map.contains_key(self.spec_ip()) && map[self.spec_ip()]
                        < self.model().instructions.len() {
                        r == Ok::<usize, VMError>((map[self.spec_ip()] + 1) as usize)
                    } else {
                        r == Err::<usize, VMError>(
                            VMError::MalformedProgram { line: pi.line, position: pi.position },
                        )
                    }
                } else {
                    r == Ok::<usize, VMError>((self.spec_ip() + 1) as usize)
                }
            }),
    {
        // Reading the length pins it as a `usize`, so stepping the
        // instruction pointer past a smaller index cannot overflow.
        let _instruction_count = self.program.instructions().len();
        if self.tape[self.head].wrapping_get_value() == 0 {
            self.jump_target()
        } else {
            Ok(self.instruction_pointer + 1)
        }
    }

    /// Where a `]` leads: past its partner when the cell under the head is
    /// nonzero, to the next instruction otherwise.  A missing or out-of-range
    /// partner fails.
    pub fn loop_non_zero_jump(&self) -> (r: Result<usize, VMError>)
        requires
            self.wf(),
            self.spec_ip() < self.model().instructions.len(),
        ensures
            ({
                let pi = self.model().instructions[self.spec_ip() as int];
                let map = self.model().brackets_map;
                if self.spec_tape()[self.spec_head() as int] != 0 {
                    if map.contains_key(self.spec_ip()) && map[self.spec_ip()]
                        < self.model().instructions.len() {
                        r == Ok::<usize, VMError>((map[self.spec_ip()] + 1) as usize)
                    } else {
                        r == Err::<usize, VMError>(
                            VMError::MalformedProgram { line: pi.line, position: pi.position },
                        )
                    }
                } else {
                    r == Ok::<usize, VMError>((self.spec_ip() + 1) as usize)
                }
            }),
    {
        // Reading the length pins it as a `usize`, so stepping the
        // instruction pointer past a smaller index cannot overflow.
        let _instruction_count = self.program.instructions().len();
        if self.tape[self.head].wrapping_get_value() != 0 {
            self.jump_target()
        } else {
            Ok(self.instruction_pointer + 1)
        }
    }

    /// Main interpreter of BF program: runs at most `fuel` instructions.
    ///
    /// Returns `Ok(true)` when the program halted, `Ok(false)` when the fuel
    /// ran out first (the machine keeps its place, and calling again
    /// continues the run), and the first error otherwise.  Result and final
    /// state are exactly those of `spec_run` from the starting state, so
    /// everything proved of the model holds of this machine.
    pub fn interpret(
        &mut self,
        input: &mut InputBuffer,
        output: &mut Vec<u8>,
        fuel: usize,
    ) -> (r: Result<bool, VMError>)
        requires
            old(self).wf(),
            old(input).wf(),
        ensures
            final(self).wf(),
            final(input).wf(),
            final(self).model() == old(self).model(),
            ({
                let outcome = spec_run(
                    old(self).model(),
                    old(self).state(old(input).remaining(), old(output)@),
                    fuel as nat,
                );
                match outcome {
                    RunOutcome::Running { state } => r == Ok::<bool, VMError>(false) && final(self).state(final(input).remaining(), final(output)@) == state,
                    RunOutcome::Halted { state } => r == Ok::<bool, VMError>(true) && final(self).state(final(input).remaining(), final(output)@) == state,
                    RunOutcome::Failed { state, error } => r == Err::<bool, VMError>(error)
                        && final(self).state(final(input).remaining(), final(output)@) == state,
                }
            }),
    {
        let ghost p = old(self).model();
        let ghost s0 = old(self).state(old(input).remaining(), old(output)@);
        let mut steps: usize = 0;
        while steps < fuel
            invariant
                self.wf(),
                input.wf(),
                steps <= fuel,
                self.model() == p,
                p == old(self).model(),
                s0 == old(self).state(old(input).remaining(), old(output)@),
                spec_run(p, s0, steps as nat) == (RunOutcome::Running {
                    state: self.state(input.remaining(), output@),
                }),
            decreases fuel - steps,
        {
            let ghost cur = self.state(input.remaining(), output@);
            let instruction_count = self.program.instructions().len();
            if self.instruction_pointer >= instruction_count {
                proof {
                    lemma_run_split(p, s0, steps as nat, (fuel - steps) as nat);
                }
                return Ok(true);
            }
            let instruction = self.program.instructions()[self.instruction_pointer];
            let step_result = match instruction.instruction() {
                RawInstructions::IncrementDataPointer => self.next_element(),
                RawInstructions::DecrementDataPointer => self.previous_element(),
                RawInstructions::IncrementByte => self.wrapped_add(),
                RawInstructions::DecrementByte => self.wrapped_sub(),
                RawInstructions::OutputByte => self.output(output),
                RawInstructions::AcceptByte => self.read(input),
                RawInstructions::ZeroJump => self.loop_zero_jump(),
                RawInstructions::NonZeroJump => self.loop_non_zero_jump(),
            };
            match step_result {
                Ok(next) => {
                    self.instruction_pointer = next;
                    steps = steps + 1;
                    proof {
                        let snew = self.state(input.remaining(), output@);
                        assert(spec_step(p, cur) == (StepResult::Step { next: snew }));
                        lemma_run_split(p, s0, (steps - 1) as nat, 1);
                        assert(spec_run(p, snew, 0) == (RunOutcome::Running { state: snew }));
                        assert(spec_run(p, cur, 1) == (RunOutcome::Running { state: snew }));
                        assert(steps as nat == (steps - 1) as nat + 1);
                    }
                },
                Err(error) => {
                    proof {
                        assert(spec_step(p, cur) == (StepResult::Fail { error }));
                        lemma_run_split(p, s0, steps as nat, (fuel - steps) as nat);
                    }
                    return Err(error);
                },
            }
        }
        Ok(false)
    }

    /// One past the partner of the bracket at the current instruction.
    fn jump_target(&self) -> (r: Result<usize, VMError>)
        requires
            self.spec_ip() < self.model().instructions.len(),
        ensures
            ({
                let pi = self.model().instructions[self.spec_ip() as int];
                let map = self.model().brackets_map;
                if map.contains_key(self.spec_ip()) && map[self.spec_ip()]
                    < self.model().instructions.len() {
                    r == Ok::<usize, VMError>((map[self.spec_ip()] + 1) as usize)
                } else {
                    r == Err::<usize, VMError>(
                        VMError::MalformedProgram { line: pi.line, position: pi.position },
                    )
                }
            }),
    {
        let instruction = self.program.instructions()[self.instruction_pointer];
        match self.program.brackets_map().get(&self.instruction_pointer) {
            Some(target) => {
                if *target < self.program.instructions().len() {
                    Ok(*target + 1)
                } else {
                    Err(
                        VMError::MalformedProgram {
                            line: instruction.line(),
                            position: instruction.position(),
                        },
                    )
                }
            },
            None => Err(
                VMError::MalformedProgram {
                    line: instruction.line(),
                    position: instruction.position(),
                },
            ),
        }
    }
}

} // verus!
