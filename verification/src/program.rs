//! The static side of the interpreter: instructions, their source positions,
//! and the program loader with its bracket validation.

use crate::decimal::decimal_digits;
use crate::decimal::decimal_string;
use std::collections::HashMap;
use vstd::prelude::*;

verus! {

broadcast use vstd::std_specs::hash::group_hash_axioms;

/// One instruction of the language.
#[derive(Debug, Clone, Copy, PartialEq, Eq, Structural)]
pub enum RawInstructions {
    /// `>`: move the head to the next cell on the right.
    IncrementDataPointer,
    /// `<`: move the head to the previous cell on the left.
    DecrementDataPointer,
    /// `+`: increment the byte under the head, wrapping past 255.
    IncrementByte,
    /// `-`: decrement the byte under the head, wrapping past 0.
    DecrementByte,
    /// `.`: write the byte under the head to the output sink.
    OutputByte,
    /// `,`: read one byte from the input source into the cell under the head.
    AcceptByte,
    /// `[`: if the byte under the head is zero, jump past the matching `]`.
    ZeroJump,
    /// `]`: if the byte under the head is nonzero, jump just past the matching `[`.
    NonZeroJump,
}

/// The instruction, if any, that a source character stands for.  Every other
/// character is a comment.
pub open spec fn spec_instruction_of(symbol: char) -> Option<RawInstructions> {
    if symbol == '>' {
        Some(RawInstructions::IncrementDataPointer)
    } else if symbol == '<' {
        Some(RawInstructions::DecrementDataPointer)
    } else if symbol == '+' {
        Some(RawInstructions::IncrementByte)
    } else if symbol == '-' {
        Some(RawInstructions::DecrementByte)
    } else if symbol == '.' {
        Some(RawInstructions::OutputByte)
    } else if symbol == ',' {
        Some(RawInstructions::AcceptByte)
    } else if symbol == '[' {
        Some(RawInstructions::ZeroJump)
    } else if symbol == ']' {
        Some(RawInstructions::NonZeroJump)
    } else {
        None
    }
}

/// The human-readable name of each instruction.
pub open spec fn spec_description(instruction: RawInstructions) -> Seq<char> {
    match instruction {
        RawInstructions::IncrementDataPointer => "Increment data pointer"@,
        RawInstructions::DecrementDataPointer => "Decrement data pointer"@,
        RawInstructions::IncrementByte => "Increment byte"@,
        RawInstructions::DecrementByte => "Decrement byte"@,
        RawInstructions::OutputByte => "Output byte"@,
        RawInstructions::AcceptByte => "Accept byte"@,
        RawInstructions::ZeroJump => "Zero jump"@,
        RawInstructions::NonZeroJump => "Non zero jump"@,
    }
}

impl RawInstructions {
    /// Provide human-readable format of the instruction.
    pub fn description(&self) -> (r: &'static str)
        ensures
            r@ == spec_description(*self),
    {
        match self {
            RawInstructions::IncrementDataPointer => "Increment data pointer",
            RawInstructions::DecrementDataPointer => "Decrement data pointer",
            RawInstructions::IncrementByte => "Increment byte",
            RawInstructions::DecrementByte => "Decrement byte",
            RawInstructions::OutputByte => "Output byte",
            RawInstructions::AcceptByte => "Accept byte",
            RawInstructions::ZeroJump => "Zero jump",
            RawInstructions::NonZeroJump => "Non zero jump",
        }
    }

    /// Converts a source character to the instruction it names.
    pub fn from_symbol(symbol: char) -> (r: Option<RawInstructions>)
        ensures
            r == spec_instruction_of(symbol),
    {
        match symbol {
            '>' => Some(RawInstructions::IncrementDataPointer),
            '<' => Some(RawInstructions::DecrementDataPointer),
            '+' => Some(RawInstructions::IncrementByte),
            '-' => Some(RawInstructions::DecrementByte),
            '.' => Some(RawInstructions::OutputByte),
            ',' => Some(RawInstructions::AcceptByte),
            '[' => Some(RawInstructions::ZeroJump),
            ']' => Some(RawInstructions::NonZeroJump),
            _ => None,
        }
    }
}

/// An instruction together with the place in the source text it was read from.
#[derive(Debug, Clone, Copy, PartialEq, Eq, Structural)]
pub struct IntructionPosition {
    /// The parsed instruction.
    pub instruction: RawInstructions,
    /// 1-based line of the source text the instruction stands on.
    pub line: usize,
    /// 1-based column within that line.
    pub position: usize,
}

impl IntructionPosition {
    /// Get parsed instruction.
    pub fn instruction(&self) -> (r: &RawInstructions)
        ensures
            *r == self.instruction,
    {
        &self.instruction
    }

    /// Get line of parsed instruction.
    pub fn line(&self) -> (r: usize)
        ensures
            r == self.line,
    {
        self.line
    }

    /// Get position at the line of parsed instruction.
    pub fn position(&self) -> (r: usize)
        ensures
            r == self.position,
    {
        self.position
    }

    /// Provide human-readable format of the instruction with position in
    /// parsed file: `line:column] name`.
    pub fn description(&self) -> (r: String)
        ensures
            r@ == decimal_digits(self.line as int) + ":"@ + decimal_digits(self.position as int)
                + "] "@ + spec_description(self.instruction),
    {
        let mut s = decimal_string(self.line);
        s.append(":");
        let position_digits = decimal_string(self.position);
        s.append(position_digits.as_str());
        s.append("] ");
        s.append(self.instruction.description());
        proof {
            assert(s@ =~= decimal_digits(self.line as int) + ":"@ + decimal_digits(
                self.position as int,
            ) + "] "@ + spec_description(self.instruction));
        }
        s
    }
}

/// The loader's cursor: the line and column the next character falls on, and
/// the instructions read so far.
#[verifier::ext_equal]
pub ghost struct ParseState {
    pub line: int,
    pub position: int,
    pub instructions: Seq<IntructionPosition>,
}

/// How reading one character moves the loader's cursor: a newline steps to
/// column 0 of the next line (the newline itself then counts as that column),
/// an instruction character is recorded at the place it was read, and every
/// character advances the column by one.
pub open spec fn parse_step(s: ParseState, c: char) -> ParseState {
    let line = if c == '\n' {
        s.line + 1
    } else {
        s.line
    };
    let position = if c == '\n' {
        0
    } else {
        s.position
    };
    let instructions = match spec_instruction_of(c) {
        Some(instruction) => s.instructions.push(
            IntructionPosition { instruction, line: line as usize, position: position as usize },
        ),
        None => s.instructions,
    };
    ParseState { line, position: position + 1, instructions }
}

/// The loader's cursor after the first `i` characters of `src`, starting at
/// line 1, column 1.
pub open spec fn parse_prefix(src: Seq<char>, i: int) -> ParseState
    decreases i,
{
    if i <= 0 {
        ParseState { line: 1, position: 1, instructions: Seq::empty() }
    } else {
        parse_step(parse_prefix(src, i - 1), src[i - 1])
    }
}

/// The instruction stream that source text parses to.
pub open spec fn spec_parse(src: Seq<char>) -> Seq<IntructionPosition> {
    parse_prefix(src, src.len() as int).instructions
}

/// A parsed program: its source name, its instruction stream, and, once
/// validation has filled it in, the pairing of loop brackets.
#[derive(Debug)]
pub struct BrainFuckProgram {
    /// Name of the file from where program is parsed.
    filename: String,
    /// List of instructions with location parsed from file.
    instructions: Vec<IntructionPosition>,
    /// Mapping for brackets.
    brackets_map: HashMap<usize, usize>,
}

impl BrainFuckProgram {
    /// The source name the program was loaded from.
    pub closed spec fn spec_filename(&self) -> Seq<char> {
        self.filename@
    }

    /// The instruction stream, in execution order.
    pub closed spec fn spec_instructions(&self) -> Seq<IntructionPosition> {
        self.instructions@
    }

    /// The bracket pairing in force; empty until validation succeeds and
    /// `set_brackets_map` stores its result.
    pub closed spec fn spec_brackets_map(&self) -> Map<usize, usize> {
        self.brackets_map@
    }

    /// Create BF program based on the name of the file and it's content.
    pub fn new(filename: String, content: String) -> (r: BrainFuckProgram)
        requires
            content@.len() < usize::MAX,
        ensures
            r.spec_filename() == filename@,
            r.spec_instructions() == spec_parse(content@),
            r.spec_brackets_map() == Map::<usize, usize>::empty(),
    {
        let mut instructions: Vec<IntructionPosition> = Vec::new();

        let mut line: usize = 1;
        let mut position: usize = 1;
        let n = content.as_str().unicode_len();
        let mut i: usize = 0;
        while i < n
            invariant
                i <= n,
                n == content@.len(),
                n < usize::MAX,
                line <= i + 1,
                position <= i + 1,
                parse_prefix(content@, i as int) == (ParseState {
                    line: line as int,
                    position: position as int,
                    instructions: instructions@,
                }),
            decreases n - i,
        {
            let symbol = content.as_str().get_char(i);
            if symbol == '\n' {
                line = line + 1;
                position = 0;
            }
            match RawInstructions::from_symbol(symbol) {
                Some(instruction) => {
                    instructions.push(IntructionPosition { instruction, line, position });
                }
                None => {},
            }
            position = position + 1;
            i = i + 1;
            proof {
                assert(parse_prefix(content@, i as int) =~= (ParseState {
                    line: line as int,
                    position: position as int,
                    instructions: instructions@,
                }));
            }
        }
        let r = BrainFuckProgram { filename, instructions, brackets_map: HashMap::new() };
        proof {
            assert(r.spec_brackets_map() =~= Map::<usize, usize>::empty());
        }
        r
    }

    /// Get name of the file from where BF program is parsed.
    pub fn filename(&self) -> (r: &str)
        ensures
            r@ == self.spec_filename(),
    {
        self.filename.as_str()
    }

    /// Get list of instructions for BF program.
    pub fn instructions(&self) -> (r: &[IntructionPosition])
        ensures
            r@ == self.spec_instructions(),
    {
        self.instructions.as_slice()
    }

    /// Stores a bracket pairing, normally the one `validate_brackets` built.
    pub fn set_brackets_map(&mut self, brackets_map: HashMap<usize, usize>)
        ensures
            final(self).spec_brackets_map() == brackets_map@,
            final(self).spec_instructions() == old(self).spec_instructions(),
            final(self).spec_filename() == old(self).spec_filename(),
    {
        self.brackets_map = brackets_map;
    }

    /// Get the bracket pairing of the program.
    pub fn brackets_map(&self) -> (r: &HashMap<usize, usize>)
        ensures
            r@ == self.spec_brackets_map(),
    {
        &self.brackets_map
    }

    /// Validate if brackets are balanced.
    ///
    /// On success the returned map pairs every `[` with its `]` and the other
    /// way round.  A stray `]` is reported at its own position; when `[`s are
    /// left open, the innermost (most recently opened) one is reported.
    pub fn validate_brackets(&self) -> (r: Result<HashMap<usize, usize>, String>)
        ensures
            match scan_brackets(self.spec_instructions()) {
                ScanResult::Balanced { map } => r matches Ok(m) && m@ == map,
                ScanResult::UnmatchedClose { index } => r matches Err(msg) && msg@
                    == missing_open_message(
                    self.spec_instructions()[index as int].line,
                    self.spec_instructions()[index as int].position,
                ),
                ScanResult::UnmatchedOpen { index } => r matches Err(msg) && msg@
                    == missing_close_message(
                    self.spec_instructions()[index as int].line,
                    self.spec_instructions()[index as int].position,
                ),
            },
    {
        let mut brackets_map: HashMap<usize, usize> = HashMap::new();
        let mut opened_brackets: Vec<usize> = Vec::new();
        let n = self.instructions.len();
        let mut position: usize = 0;
        proof {
            assert(brackets_map@ =~= Map::<usize, usize>::empty());
        }
        while position < n
            invariant
                position <= n,
                n == self.spec_instructions().len(),
                forall|j: int|
                    0 <= j < opened_brackets@.len() ==> opened_brackets@[j] < position,
                scan_brackets(self.spec_instructions()) == scan_from(
                    self.spec_instructions(),
                    position as int,
                    opened_brackets@,
                    brackets_map@,
                ),
            decreases n - position,
        {
            let instruction = self.instructions[position];
            match instruction.instruction() {
                RawInstructions::ZeroJump => {
                    opened_brackets.push(position);
                },
                RawInstructions::NonZeroJump => {
                    match opened_brackets.pop() {
                        Some(opened_bracket) => {
                            brackets_map.insert(opened_bracket, position);
                            brackets_map.insert(position, opened_bracket);
                        },
                        None => {
                            return Err(
                                missing_open_error(instruction.line(), instruction.position()),
                            );
                        },
                    }
                },
                _ => {},
            }
            position = position + 1;
        }
        if opened_brackets.len() > 0 {
            let opened_index = opened_brackets[opened_brackets.len() - 1];
            let instruction = self.instructions[opened_index];
            return Err(missing_close_error(instruction.line(), instruction.position()));
        }
        Ok(brackets_map)
    }
}

/// The outcome of the bracket scan: a full pairing, or the index of the
/// instruction to blame.
#[verifier::ext_equal]
pub ghost enum ScanResult {
    /// Every bracket found its partner; `map` pairs them both ways.
    Balanced { map: Map<usize, usize> },
    /// A `]` at `index` had no `[` open.
    UnmatchedClose { index: usize },
    /// The `[` at `index` was still open at the end of the program.
    UnmatchedOpen { index: usize },
}

/// Whether an instruction is one of the two loop brackets.
pub open spec fn is_bracket(instruction: RawInstructions) -> bool {
    instruction is ZeroJump || instruction is NonZeroJump
}

/// The bracket scan from instruction `i` on, given the stack of `[` indices
/// still open and the pairs recorded so far.
pub open spec fn scan_from(
    instrs: Seq<IntructionPosition>,
    i: int,
    stack: Seq<usize>,
    map: Map<usize, usize>,
) -> ScanResult
    decreases instrs.len() - i,
{
    if i < 0 || i >= instrs.len() {
        if stack.len() == 0 {
            ScanResult::Balanced { map }
        } else {
            ScanResult::UnmatchedOpen { index: stack.last() }
        }
    } else {
        match instrs[i].instruction {
            RawInstructions::ZeroJump => scan_from(instrs, i + 1, stack.push(i as usize), map),
            RawInstructions::NonZeroJump => if stack.len() == 0 {
                ScanResult::UnmatchedClose { index: i as usize }
            } else {
                scan_from(
                    instrs,
                    i + 1,
                    stack.drop_last(),
                    map.insert(stack.last(), i as usize).insert(i as usize, stack.last()),
                )
            },
            _ => scan_from(instrs, i + 1, stack, map),
        }
    }
}

/// The bracket scan of a whole instruction stream.
pub open spec fn scan_brackets(instrs: Seq<IntructionPosition>) -> ScanResult {
    scan_from(instrs, 0, Seq::empty(), Map::empty())
}

/// The message for a `]` with no `[` open, naming the `]`'s own position.
pub open spec fn missing_open_message(line: usize, position: usize) -> Seq<char> {
    "Error in input file, no open bracket found matching bracket at line "@ + decimal_digits(
        line as int,
    ) + " column "@ + decimal_digits(position as int) + "."@
}

/// The message for a `[` still open at the end, naming the `[`'s position.
pub open spec fn missing_close_message(line: usize, position: usize) -> Seq<char> {
    "Error in input file, no close bracket found matching bracket at line "@ + decimal_digits(
        line as int,
    ) + " column "@ + decimal_digits(position as int) + "."@
}

/// Renders `missing_open_message`.
fn missing_open_error(line: usize, position: usize) -> (r: String)
    ensures
        r@ == missing_open_message(line, position),
{
    let mut s = String::from_str(
        "Error in input file, no open bracket found matching bracket at line ",
    );
    let line_digits = decimal_string(line);
    s.append(line_digits.as_str());
    s.append(" column ");
    let position_digits = decimal_string(position);
    s.append(position_digits.as_str());
    s.append(".");
    proof {
        assert(s@ =~= missing_open_message(line, position));
    }
    s
}

/// What a full bracket pairing of an instruction stream is: its keys are
/// exactly the bracket instructions, every key sends back to itself through
/// its partner, and each `[` points forward at a `]` and the other way round.
pub open spec fn pairs_brackets(instrs: Seq<IntructionPosition>, map: Map<usize, usize>) -> bool {
    &&& forall|k: usize| #[trigger] map.contains_key(k) ==> k < instrs.len() && is_bracket(
        instrs[k as int].instruction,
    ) && map.contains_key(map[k]) && map[map[k]] == k
    &&& forall|k: usize|
        k < instrs.len() && is_bracket(#[trigger] instrs[k as int].instruction)
            ==> map.contains_key(k)
    &&& forall|k: usize| #[trigger] map.contains_key(k) ==> if instrs[k as int].instruction
        is ZeroJump {
        k < map[k] && instrs[map[k] as int].instruction is NonZeroJump
    } else {
        map[k] < k && instrs[map[k] as int].instruction is ZeroJump
    }
}

/// What the scan keeps true of its stack and its map: the stack holds the
/// `[`s before `i` still open, innermost last, none of them paired yet; the
/// map pairs exactly the other brackets before `i`, each `[` with the `]`
/// after it.
pub open spec fn scan_invariant(
    instrs: Seq<IntructionPosition>,
    i: int,
    stack: Seq<usize>,
    map: Map<usize, usize>,
) -> bool {
    &&& forall|j: int|
        0 <= j < stack.len() ==> stack[j] < i && stack[j] < instrs.len()
            && instrs[#[trigger] stack[j] as int].instruction is ZeroJump
    &&& forall|j1: int, j2: int| 0 <= j1 < j2 < stack.len() ==> stack[j1] < stack[j2]
    &&& forall|j: int| 0 <= j < stack.len() ==> !map.contains_key(#[trigger] stack[j])
    &&& forall|k: usize| #[trigger] map.contains_key(k) ==> k < i && k < instrs.len()
        && map.contains_key(map[k]) && map[map[k]] == k && is_bracket(instrs[k as int].instruction)
    &&& forall|k: usize|
        k < i && k < instrs.len() && is_bracket(#[trigger] instrs[k as int].instruction)
            ==> map.contains_key(k) || stack.contains(k)
    &&& forall|k: usize| #[trigger] map.contains_key(k) ==> if instrs[k as int].instruction
        is ZeroJump {
        k < map[k] && instrs[map[k] as int].instruction is NonZeroJump
    } else {
        map[k] < k && instrs[map[k] as int].instruction is ZeroJump
    }
}

proof fn lemma_scan_from_pairs(
    instrs: Seq<IntructionPosition>,
    i: int,
    stack: Seq<usize>,
    map: Map<usize, usize>,
)
    requires
        instrs.len() <= usize::MAX,
        0 <= i,
        scan_invariant(instrs, i, stack, map),
    ensures
        scan_from(instrs, i, stack, map) matches ScanResult::Balanced { map: m }
            ==> pairs_brackets(instrs, m),
    decreases instrs.len() - i,
{
    if i >= instrs.len() {
        if stack.len() == 0 {
            assert forall|k: usize|
                k < instrs.len() && is_bracket(#[trigger] instrs[k as int].instruction) implies map.contains_key(
                k,
            ) by {
                assert(!stack.contains(k));
            }
        }
    } else {
        match instrs[i].instruction {
            RawInstructions::ZeroJump => {
                let stack2 = stack.push(i as usize);
                assert(scan_invariant(instrs, i + 1, stack2, map)) by {
                    assert forall|k: usize|
                        k < i + 1 && k < instrs.len() && is_bracket(
                            #[trigger] instrs[k as int].instruction,
                        ) implies map.contains_key(k) || stack2.contains(k) by {
                        if k == i as usize {
                            assert(stack2[stack.len() as int] == k);
                        } else {
                            if !map.contains_key(k) {
                                let j = choose|j: int|
                                    0 <= j < stack.len() && stack[j] == k;
                                assert(stack2[j] == k);
                            }
                        }
                    }
                }
                lemma_scan_from_pairs(instrs, i + 1, stack2, map);
            },
            RawInstructions::NonZeroJump => {
                if stack.len() == 0 {
                } else {
                    let opened = stack.last();
                    let closed = i as usize;
                    let stack2 = stack.drop_last();
                    let map2 = map.insert(opened, closed).insert(closed, opened);
                    assert(scan_invariant(instrs, i + 1, stack2, map2)) by {
                        assert forall|k: usize| #[trigger] map2.contains_key(k) implies k < i + 1
                            && k < instrs.len() && map2.contains_key(map2[k]) && map2[map2[k]] == k
                            && is_bracket(instrs[k as int].instruction) by {
                            if k == opened || k == closed {
                            } else {
                                assert(map.contains_key(k));
                                assert(map.contains_key(map[k]));
                                assert(map[k] != opened && map[k] != closed);
                            }
                        }
                        assert forall|k: usize|
                            k < i + 1 && k < instrs.len() && is_bracket(
                                #[trigger] instrs[k as int].instruction,
                            ) implies map2.contains_key(k) || stack2.contains(k) by {
                            if k == closed || k == opened || map.contains_key(k) {
                            } else {
                                let j = choose|j: int|
                                    0 <= j < stack.len() && stack[j] == k;
                                assert(j < stack.len() - 1);
                                assert(stack2[j] == k);
                            }
                        }
                        assert forall|k: usize| #[trigger] map2.contains_key(k) implies if instrs[k as int].instruction
                            is ZeroJump {
                            k < map2[k] && instrs[map2[k] as int].instruction is NonZeroJump
                        } else {
                            map2[k] < k && instrs[map2[k] as int].instruction is ZeroJump
                        } by {
                            if k == opened || k == closed {
                            } else {
                                assert(map.contains_key(k));
                                assert(map.contains_key(map[k]));
                                assert(map2[k] == map[k]);
                            }
                        }
                    }
                    lemma_scan_from_pairs(instrs, i + 1, stack2, map2);
                }
            },
            _ => {
                lemma_scan_from_pairs(instrs, i + 1, stack, map);
            },
        }
    }
}

/// A balanced program's bracket map is a full pairing of its brackets: the
/// keys are exactly the bracket instruction indices, `map[map[i]] == i` for
/// every one of them, and each `[` is sent forward to its `]` and the other
/// way round.
pub proof fn lemma_bracket_map_involutive(instrs: Seq<IntructionPosition>)
    requires
        instrs.len() <= usize::MAX,
    ensures
        scan_brackets(instrs) matches ScanResult::Balanced { map } ==> pairs_brackets(
            instrs,
            map,
        ),
{
    lemma_scan_from_pairs(instrs, 0, Seq::empty(), Map::empty());
}

proof fn lemma_scan_from_no_brackets(
    instrs: Seq<IntructionPosition>,
    i: int,
    stack: Seq<usize>,
    map: Map<usize, usize>,
)
    requires
        forall|k: int| i <= k < instrs.len() ==> !is_bracket(#[trigger] instrs[k].instruction),
    ensures
        scan_from(instrs, i, stack, map) == if stack.len() == 0 {
            ScanResult::Balanced { map }
        } else {
            ScanResult::UnmatchedOpen { index: stack.last() }
        },
    decreases instrs.len() - i,
{
    if i < 0 || i >= instrs.len() {
    } else {
        lemma_scan_from_no_brackets(instrs, i + 1, stack, map);
    }
}

/// A program without loop brackets always validates, to the empty pairing.
pub proof fn lemma_no_brackets_balanced(instrs: Seq<IntructionPosition>)
    requires
        forall|k: int| 0 <= k < instrs.len() ==> !is_bracket(#[trigger] instrs[k].instruction),
    ensures
        scan_brackets(instrs) == (ScanResult::Balanced { map: Map::<usize, usize>::empty() }),
{
    lemma_scan_from_no_brackets(instrs, 0, Seq::empty(), Map::empty());
}

/// Renders `missing_close_message`.
fn missing_close_error(line: usize, position: usize) -> (r: String)
    ensures
        r@ == missing_close_message(line, position),
{
    let mut s = String::from_str(
        "Error in input file, no close bracket found matching bracket at line ",
    );
    let line_digits = decimal_string(line);
    s.append(line_digits.as_str());
    s.append(" column ");
    let position_digits = decimal_string(position);
    s.append(position_digits.as_str());
    s.append(".");
    proof {
        assert(s@ =~= missing_close_message(line, position));
    }
    s
}


} // verus!
