//! The execution engine: instructions, the loaded script, the search for
//! the partner of a bracket and the single step.

use vstd::prelude::*;
use vstd::string::*;
use vstd::utf8::*;

pub mod brackets;
pub mod cell_bytes;
pub mod context;

use crate::runtime::context::{decremented, grown, incremented};

pub use crate::runtime::cell_bytes::CellBytes;
pub use crate::runtime::context::{
    CellType, PointerPolicy, RuntimeContext, RuntimeContextU64, RuntimeContextU8,
};

verus! {

/// One operation of the machine.
#[derive(Copy, Clone, PartialEq, Eq, Debug, Structural)]
pub enum Instruction {
    IncrementDataPointer,
    DecrementDataPointer,
    IncrementData,
    DecrementData,
    OutputData,
    AcceptData,
    JumpForwardsIfZero,
    JumpBackwardsIfNonzero,
}

/// The instruction that a character of the source text stands for, if it
/// stands for one. Every other character is commentary.
pub open spec fn instruction_of(ch: char) -> Option<Instruction> {
    if ch == '>' {
        Some(Instruction::IncrementDataPointer)
    } else if ch == '<' {
        Some(Instruction::DecrementDataPointer)
    } else if ch == '+' {
        Some(Instruction::IncrementData)
    } else if ch == '-' {
        Some(Instruction::DecrementData)
    } else if ch == '.' {
        Some(Instruction::OutputData)
    } else if ch == ',' {
        Some(Instruction::AcceptData)
    } else if ch == '[' {
        Some(Instruction::JumpForwardsIfZero)
    } else if ch == ']' {
        Some(Instruction::JumpBackwardsIfNonzero)
    } else {
        None
    }
}

impl Instruction {
    /// The instruction that `ch` stands for, if it stands for one.
    pub fn from_char(ch: char) -> (instruction: Option<Self>)
        ensures
            instruction == instruction_of(ch),
    {
        Some(
            match ch {
                '>' => Instruction::IncrementDataPointer,
                '<' => Instruction::DecrementDataPointer,
                '+' => Instruction::IncrementData,
                '-' => Instruction::DecrementData,
                '.' => Instruction::OutputData,
                ',' => Instruction::AcceptData,
                '[' => Instruction::JumpForwardsIfZero,
                ']' => Instruction::JumpBackwardsIfNonzero,
                _ => return None,
            },
        )
    }
}

/// An instruction together with the place of its character in the source
/// text, counted in characters.
#[derive(Copy, Clone)]
pub struct LoadedInstruction {
    pub instruction: Instruction,
    pub source_position: usize,
}

/// The instructions of a source text in the order of the text, each with the
/// index of its character.
pub open spec fn loaded(source: Seq<char>) -> Seq<LoadedInstruction>
    decreases source.len(),
{
    if source.len() == 0 {
        Seq::empty()
    } else {
        let before = loaded(source.drop_last());
        match instruction_of(source.last()) {
            Some(instruction) => before.push(
                LoadedInstruction { instruction, source_position: (source.len() - 1) as usize },
            ),
            None => before,
        }
    }
}

/// An instruction of a source text stands for the character at its place.
pub proof fn lemma_loaded_entry(source: Seq<char>, k: int)
    requires
        source.len() <= usize::MAX,
        0 <= k < loaded(source).len(),
    ensures
        loaded(source)[k].source_position < source.len(),
        instruction_of(source[loaded(source)[k].source_position as int]) == Some(
            loaded(source)[k].instruction,
        ),
    decreases source.len(),
{
    let shorter = source.drop_last();
    if k < loaded(shorter).len() {
        lemma_loaded_entry(shorter, k);
        assert(loaded(source)[k] == loaded(shorter)[k]);
        assert(shorter[loaded(shorter)[k].source_position as int] == source[loaded(
            shorter,
        )[k].source_position as int]);
    }
}

/// Of two instructions of a source text, the later one stands at the higher
/// place.
pub proof fn lemma_loaded_rising(source: Seq<char>, j: int, k: int)
    requires
        source.len() <= usize::MAX,
        0 <= j < k < loaded(source).len(),
    ensures
        loaded(source)[j].source_position < loaded(source)[k].source_position,
    decreases source.len(),
{
    let shorter = source.drop_last();
    assert(loaded(source)[j] == loaded(shorter)[j]);
    if k < loaded(shorter).len() {
        lemma_loaded_rising(shorter, j, k);
        assert(loaded(source)[k] == loaded(shorter)[k]);
    } else {
        lemma_loaded_entry(shorter, j);
    }
}

/// A character that stands for an instruction has its instruction among
/// those of the source text: at the place returned.
pub proof fn lemma_loaded_finds(source: Seq<char>, i: int) -> (k: int)
    requires
        source.len() <= usize::MAX,
        0 <= i < source.len(),
        instruction_of(source[i]) is Some,
    ensures
        0 <= k < loaded(source).len(),
        loaded(source)[k].source_position == i,
    decreases source.len(),
{
    let shorter = source.drop_last();
    if i == source.len() - 1 {
        loaded(source).len() - 1
    } else {
        assert(shorter[i] == source[i]);
        let k = lemma_loaded_finds(shorter, i);
        assert(loaded(source)[k] == loaded(shorter)[k]);
        k
    }
}

/// The instructions of a source text come in the order of the text: each
/// stands for the character at its place, the places rise strictly, and no
/// character that stands for an instruction is left out.
pub proof fn lemma_loaded_in_order(source: Seq<char>)
    requires
        source.len() <= usize::MAX,
    ensures
        forall|k: int|
            0 <= k < loaded(source).len() ==> {
                let found = #[trigger] loaded(source)[k];
                &&& found.source_position < source.len()
                &&& instruction_of(source[found.source_position as int]) == Some(found.instruction)
            },
        forall|j: int, k: int|
            0 <= j < k < loaded(source).len() ==> (#[trigger] loaded(source)[j]).source_position < (
            #[trigger] loaded(source)[k]).source_position,
        forall|i: int|
            0 <= i < source.len() && (#[trigger] instruction_of(source[i])) is Some ==> exists|
                k: int,
            |
                0 <= k < loaded(source).len() && (#[trigger] loaded(source)[k]).source_position
                    == i,
{
    let all = loaded(source);
    assert forall|k: int| 0 <= k < all.len() implies {
        let found = #[trigger] all[k];
        &&& found.source_position < source.len()
        &&& instruction_of(source[found.source_position as int]) == Some(found.instruction)
    } by {
        lemma_loaded_entry(source, k);
    }
    assert forall|j: int, k: int| 0 <= j < k < all.len() implies (#[trigger] all[j]).source_position
        < (#[trigger] all[k]).source_position by {
        lemma_loaded_rising(source, j, k);
    }
    assert forall|i: int|
        0 <= i < source.len() && (#[trigger] instruction_of(source[i])) is Some implies exists|
        k: int,
    |
        0 <= k < all.len() && (#[trigger] all[k]).source_position == i by {
        let k = lemma_loaded_finds(source, i);
        assert(all[k].source_position == i);
    }
}

/// A text has at most as many characters as its encoding has bytes.
pub proof fn lemma_chars_within_bytes(chars: Seq<char>)
    ensures
        chars.len() <= encode_utf8(chars).len(),
    decreases chars.len(),
{
    if chars.len() > 0 {
        lemma_chars_within_bytes(chars.drop_first());
    }
}

/// Where a forward search ends that has reached position `pos` with `depth`
/// brackets opened on its way and not yet closed: one past the first closing
/// bracket met at depth zero, or at the end of the code if there is none.
pub open spec fn scan_forward(code: Seq<Instruction>, pos: int, depth: nat) -> int
    decreases code.len() - pos,
{
    if pos < 0 || pos >= code.len() {
        code.len() as int
    } else if code[pos] == Instruction::JumpBackwardsIfNonzero {
        if depth == 0 {
            pos + 1
        } else {
            scan_forward(code, pos + 1, (depth - 1) as nat)
        }
    } else if code[pos] == Instruction::JumpForwardsIfZero {
        scan_forward(code, pos + 1, depth + 1)
    } else {
        scan_forward(code, pos + 1, depth)
    }
}

/// Where a backward search ends that has reached position `pos` with `depth`
/// brackets closed on its way and not yet opened: one past the first opening
/// bracket met at depth zero, or at position zero if there is none.
pub open spec fn scan_backward(code: Seq<Instruction>, pos: int, depth: nat) -> int
    decreases pos + 1,
{
    if pos < 0 || pos >= code.len() {
        0
    } else if code[pos] == Instruction::JumpForwardsIfZero {
        if depth == 0 {
            pos + 1
        } else {
            scan_backward(code, pos - 1, (depth - 1) as nat)
        }
    } else if code[pos] == Instruction::JumpBackwardsIfNonzero {
        scan_backward(code, pos - 1, depth + 1)
    } else {
        scan_backward(code, pos - 1, depth)
    }
}

/// Whether a forward search from `pos` at `depth` meets its closing bracket.
pub open spec fn finds_forward(code: Seq<Instruction>, pos: int, depth: nat) -> bool
    decreases code.len() - pos,
{
    if pos < 0 || pos >= code.len() {
        false
    } else if code[pos] == Instruction::JumpBackwardsIfNonzero {
        depth == 0 || finds_forward(code, pos + 1, (depth - 1) as nat)
    } else if code[pos] == Instruction::JumpForwardsIfZero {
        finds_forward(code, pos + 1, depth + 1)
    } else {
        finds_forward(code, pos + 1, depth)
    }
}

/// Whether a backward search from `pos` at `depth` meets its opening bracket.
pub open spec fn finds_backward(code: Seq<Instruction>, pos: int, depth: nat) -> bool
    decreases pos + 1,
{
    if pos < 0 || pos >= code.len() {
        false
    } else if code[pos] == Instruction::JumpForwardsIfZero {
        depth == 0 || finds_backward(code, pos - 1, (depth - 1) as nat)
    } else if code[pos] == Instruction::JumpBackwardsIfNonzero {
        finds_backward(code, pos - 1, depth + 1)
    } else {
        finds_backward(code, pos - 1, depth)
    }
}

/// Where the instruction pointer `at` stands after a forward search: a
/// pointer at or beyond the end does not move.
pub open spec fn forward_target(code: Seq<Instruction>, at: int) -> int {
    forward_rest(code, at, 0)
}

/// Where the instruction pointer `at` stands after a backward search. A
/// pointer at zero does not move; one that lies more than one place beyond
/// the end steps back once and stops there.
pub open spec fn backward_target(code: Seq<Instruction>, at: int) -> int {
    backward_rest(code, at, 0)
}

/// Where a forward search ends that stands at `at` with `depth` brackets
/// open.
pub open spec fn forward_rest(code: Seq<Instruction>, at: int, depth: nat) -> int {
    if at < code.len() {
        scan_forward(code, at + 1, depth)
    } else {
        at
    }
}

/// Where a backward search ends that stands at `at` with `depth` brackets
/// closed.
pub open spec fn backward_rest(code: Seq<Instruction>, at: int, depth: nat) -> int {
    if at <= 0 {
        at
    } else if at - 1 >= code.len() {
        at - 1
    } else {
        scan_backward(code, at - 1, depth)
    }
}

/// Why a step was refused. A refused step changes nothing.
#[derive(Copy, Clone, PartialEq, Eq, Debug, Structural)]
pub enum StepFault {
    /// The data pointer stands at address zero and would move below it.
    PointerUnderflow,
    /// The data pointer stands at the last address and would move beyond it.
    PointerOverflow,
    /// The cell under the data pointer would have to be written, and the
    /// memory cannot grow that far.
    CellOutOfReach,
    /// The cycle counter cannot count any further.
    CycleLimit,
}

/// How a step ended.
pub enum StepOutcome<T> {
    /// There was no instruction left; nothing happened.
    Halted,
    /// The step was refused; nothing happened.
    Faulted(StepFault),
    /// One instruction was executed. `read` is the value that an input
    /// instruction stored; `written` is the value that an output instruction
    /// puts out, which the caller passes on to wherever output goes.
    Done { read: Option<T>, written: Option<T> },
}

/// The surroundings of the machine: where its input comes from, and who
/// watches it run. What the machine puts out is not handed to the host: it
/// is part of the outcome of the step, for the caller to pass on.
pub trait Host<T: CellType> {
    /// Supplies the next input value.
    fn read(&mut self) -> T;

    /// Is shown the machine after every step, and after every move of the
    /// instruction pointer while a bracket's partner is searched.
    fn refresh(&self, script: &Script, context: &RuntimeContext<T>);
}

/// The reason for which the instruction `instruction` cannot be executed in
/// the given situation, if there is one.
pub open spec fn fault_of(
    instruction: Instruction,
    data_pointer: usize,
    policy: PointerPolicy,
    cycles: usize,
) -> Option<StepFault> {
    if cycles == usize::MAX {
        Some(StepFault::CycleLimit)
    } else {
        match instruction {
            Instruction::IncrementDataPointer => if data_pointer == usize::MAX && policy
                == PointerPolicy::Fail {
                Some(StepFault::PointerOverflow)
            } else {
                None
            },
            Instruction::DecrementDataPointer => if data_pointer == 0 && policy
                == PointerPolicy::Fail {
                Some(StepFault::PointerUnderflow)
            } else {
                None
            },
            Instruction::IncrementData | Instruction::DecrementData | Instruction::AcceptData => if data_pointer
                == usize::MAX {
                Some(StepFault::CellOutOfReach)
            } else {
                None
            },
            _ => None,
        }
    }
}

/// The data pointer after `instruction`, where the step is not refused.
pub open spec fn data_pointer_after(instruction: Instruction, data_pointer: usize) -> usize {
    match instruction {
        Instruction::IncrementDataPointer => if data_pointer == usize::MAX {
            0
        } else {
            (data_pointer + 1) as usize
        },
        Instruction::DecrementDataPointer => if data_pointer == 0 {
            usize::MAX
        } else {
            (data_pointer - 1) as usize
        },
        _ => data_pointer,
    }
}

/// The cells after `instruction`, executed with the data pointer at `at` in
/// the band `[min, max]`; `input` is the value that the host supplied.
pub open spec fn cells_after(
    instruction: Instruction,
    cells: Seq<nat>,
    at: int,
    min: nat,
    max: nat,
    input: nat,
) -> Seq<nat> {
    let current = if at < cells.len() {
        cells[at]
    } else {
        0
    };
    match instruction {
        Instruction::IncrementData => grown(cells, at).update(at, incremented(current, min, max)),
        Instruction::DecrementData => grown(cells, at).update(at, decremented(current, min, max)),
        Instruction::AcceptData => grown(cells, at).update(at, input),
        _ => cells,
    }
}

/// The instruction pointer after the instruction at `at` has been executed
/// with `current` in the cell under the data pointer.
pub open spec fn instruction_pointer_after(code: Seq<Instruction>, at: int, current: nat) -> int {
    if code[at] == Instruction::JumpForwardsIfZero && current == 0 {
        forward_target(code, at)
    } else if code[at] == Instruction::JumpBackwardsIfNonzero && current != 0 {
        backward_target(code, at)
    } else {
        at + 1
    }
}

/// A program: its source text, the instructions found in it, the place of
/// the next instruction and the number of steps made so far.
///
/// An instruction pointer equal to the number of instructions (or beyond it)
/// means that the program has halted.
pub struct Script {
    pub source: String,
    pub instructions: Vec<LoadedInstruction>,
    pub instruction_pointer: usize,
    pub cycles: usize,
}

impl Script {
    /// The instructions alone, without their places in the source.
    pub open spec fn code(&self) -> Seq<Instruction> {
        self.instructions@.map_values(|l: LoadedInstruction| l.instruction)
    }

    /// The instruction under the instruction pointer.
    pub open spec fn current(&self) -> Option<Instruction> {
        if self.instruction_pointer < self.code().len() {
            Some(self.code()[self.instruction_pointer as int])
        } else {
            None
        }
    }

    /// The instructions are those of the source text.
    pub open spec fn well_formed(&self) -> bool {
        self.instructions@ == loaded(self.source@)
    }

    /// Source text and instructions are those of `other`.
    pub open spec fn same_program(&self, other: &Script) -> bool {
        &&& self.source == other.source
        &&& self.instructions == other.instructions
    }

    /// Reads the instructions out of a source text. The text is kept as it
    /// is; the program starts at its first instruction with no step made.
    pub fn new(source: String) -> (script: Self)
        ensures
            script.source == source,
            script.instructions@ == loaded(source@),
            script.well_formed(),
            script.instruction_pointer == 0,
            script.cycles == 0,
    {
        let mut instructions: Vec<LoadedInstruction> = Vec::new();
        let text = source.as_str();
        let limit = text.as_bytes().len();
        proof {
            lemma_chars_within_bytes(text@);
        }
        let mut u: usize = 0;
        for ch in it: text.chars()
            invariant
                u == it.index(),
                it.seq() == text@,
                text@.len() <= limit,
                instructions@ == loaded(text@.take(u as int)),
        {
            proof {
                let upto = text@.take(u + 1);
                assert(upto.drop_last() =~= text@.take(u as int));
                assert(upto.last() == ch);
            }
            if let Some(instruction) = Instruction::from_char(ch) {
                instructions.push(LoadedInstruction { instruction, source_position: u });
            }
            u += 1;
        }
        proof {
            assert(text@.take(u as int) =~= text@);
        }
        Self { source, instructions, instruction_pointer: 0, cycles: 0 }
    }

    /// What one step makes of `self` and `context`, with `input` standing
    /// for the value that the host supplies: `next`, `next_context` and
    /// `outcome`.
    ///
    /// A halted program and a refused step change nothing. Otherwise the
    /// instruction under the pointer is applied, the pointer moves on (by
    /// one, or to where the search for a bracket's partner ends) and the
    /// cycle counter goes up by one.
    pub open spec fn steps_to<T: CellType>(
        &self,
        context: &RuntimeContext<T>,
        input: T,
        next: &Script,
        next_context: &RuntimeContext<T>,
        outcome: StepOutcome<T>,
    ) -> bool {
        match self.current() {
            None => outcome is Halted && next == self && next_context == context,
            Some(instruction) => match fault_of(
                instruction,
                context.data_pointer,
                context.pointer_policy,
                self.cycles,
            ) {
                Some(fault) => outcome == StepOutcome::<T>::Faulted(fault) && next == self
                    && next_context == context,
                None => {
                    let at = context.data_pointer as int;
                    &&& next.same_program(self)
                    &&& next.instruction_pointer == instruction_pointer_after(
                        self.code(),
                        self.instruction_pointer as int,
                        context.cell(at),
                    )
                    &&& next.cycles == self.cycles + 1
                    &&& next_context.min_cell_value == context.min_cell_value
                    &&& next_context.max_cell_value == context.max_cell_value
                    &&& next_context.pointer_policy == context.pointer_policy
                    &&& next_context.data_pointer == data_pointer_after(
                        instruction,
                        context.data_pointer,
                    )
                    &&& next_context.values() == cells_after(
                        instruction,
                        context.values(),
                        at,
                        context.band_min(),
                        context.band_max(),
                        input.value(),
                    )
                    &&& outcome matches StepOutcome::Done { read, written }
                    &&& read == if instruction == Instruction::AcceptData {
                        Some(input)
                    } else {
                        None
                    }
                    &&& written is Some <==> instruction == Instruction::OutputData
                    &&& written matches Some(value) ==> value.value() == context.cell(at)
                },
            },
        }
    }

    /// Moves the instruction pointer forward to just behind the closing
    /// bracket that belongs to the instruction it stands on, counting the
    /// brackets opened and closed on the way. Without such a bracket the
    /// pointer comes to rest at the end of the program. The host is shown
    /// every position that the pointer passes.
    pub fn jump_forwards<T: CellType, H: Host<T>>(
        &mut self,
        context: &RuntimeContext<T>,
        host: &H,
    ) -> (found: bool)
        ensures
            final(self).same_program(old(self)),
            final(self).cycles == old(self).cycles,
            final(self).instruction_pointer == forward_target(
                old(self).code(),
                old(self).instruction_pointer as int,
            ),
            found == (old(self).instruction_pointer < old(self).code().len() && finds_forward(
                old(self).code(),
                old(self).instruction_pointer + 1,
                0,
            )),
    {
        let ghost code = self.code();
        let ghost start = self.instruction_pointer as int;
        let mut depth: usize = 0;
        while self.instruction_pointer < self.instructions.len()
            invariant
                self.same_program(old(self)),
                self.cycles == old(self).cycles,
                code == self.code(),
                start == old(self).instruction_pointer,
                depth <= self.instruction_pointer,
                forward_rest(code, start, 0) == forward_rest(
                    code,
                    self.instruction_pointer as int,
                    depth as nat,
                ),
                (start < code.len() && finds_forward(code, start + 1, 0)) == (self.instruction_pointer
                    < code.len() && finds_forward(
                    code,
                    self.instruction_pointer + 1,
                    depth as nat,
                )),
            decreases self.instructions.len() - self.instruction_pointer,
        {
            self.instruction_pointer += 1;
            host.refresh(self, context);
            if self.instruction_pointer < self.instructions.len() {
                let instruction = self.instructions[self.instruction_pointer].instruction;
                if instruction == Instruction::JumpBackwardsIfNonzero {
                    if depth == 0 {
                        self.instruction_pointer += 1;
                        host.refresh(self, context);
                        return true;
                    }
                    depth -= 1;
                }
                if instruction == Instruction::JumpForwardsIfZero {
                    depth += 1;
                }
            }
        }
        false
    }

    /// Moves the instruction pointer backward to just behind the opening
    /// bracket that belongs to the instruction it stands on, counting the
    /// brackets closed and opened on the way. Without such a bracket the
    /// pointer comes to rest at the start of the program. The host is shown
    /// every position that the pointer passes.
    pub fn jump_backwards<T: CellType, H: Host<T>>(
        &mut self,
        context: &RuntimeContext<T>,
        host: &H,
    ) -> (found: bool)
        ensures
            final(self).same_program(old(self)),
            final(self).cycles == old(self).cycles,
            final(self).instruction_pointer == backward_target(
                old(self).code(),
                old(self).instruction_pointer as int,
            ),
            found == (0 < old(self).instruction_pointer <= old(self).code().len()
                && finds_backward(old(self).code(), old(self).instruction_pointer - 1, 0)),
    {
        let ghost code = self.code();
        let ghost start = self.instruction_pointer as int;
        let mut depth: usize = 0;
        while self.instruction_pointer > 0
            invariant
                self.same_program(old(self)),
                self.cycles == old(self).cycles,
                code == self.code(),
                start == old(self).instruction_pointer,
                self.instruction_pointer <= start,
                depth <= start - self.instruction_pointer,
                backward_rest(code, start, 0) == backward_rest(
                    code,
                    self.instruction_pointer as int,
                    depth as nat,
                ),
                (0 < start <= code.len() && finds_backward(code, start - 1, 0)) == (0
                    < self.instruction_pointer <= code.len() && finds_backward(
                    code,
                    self.instruction_pointer - 1,
                    depth as nat,
                )),
            decreases self.instruction_pointer,
        {
            self.instruction_pointer -= 1;
            host.refresh(self, context);
            if self.instruction_pointer < self.instructions.len() {
                let instruction = self.instructions[self.instruction_pointer].instruction;
                if instruction == Instruction::JumpForwardsIfZero {
                    if depth == 0 {
                        self.instruction_pointer += 1;
                        host.refresh(self, context);
                        return true;
                    }
                    depth -= 1;
                }
                if instruction == Instruction::JumpBackwardsIfNonzero {
                    depth += 1;
                }
                proof {
                    let before = self.instruction_pointer - 1;
                    assert(before < 0 ==> scan_backward(code, before, depth as nat) == 0);
                    assert(before < 0 ==> !finds_backward(code, before, depth as nat));
                }
            } else {
                return false;
            }
        }
        false
    }

    /// The reason for which `instruction` cannot be executed in the given
    /// situation, if there is one.
    fn find_fault(
        instruction: Instruction,
        data_pointer: usize,
        policy: PointerPolicy,
        cycles: usize,
    ) -> (fault: Option<StepFault>)
        ensures
            fault == fault_of(instruction, data_pointer, policy, cycles),
    {
        if cycles == usize::MAX {
            return Some(StepFault::CycleLimit);
        }
        match instruction {
            Instruction::IncrementDataPointer => {
                if data_pointer == usize::MAX && policy == PointerPolicy::Fail {
                    Some(StepFault::PointerOverflow)
                } else {
                    None
                }
            },
            Instruction::DecrementDataPointer => {
                if data_pointer == 0 && policy == PointerPolicy::Fail {
                    Some(StepFault::PointerUnderflow)
                } else {
                    None
                }
            },
            Instruction::IncrementData | Instruction::DecrementData | Instruction::AcceptData => {
                if data_pointer == usize::MAX {
                    Some(StepFault::CellOutOfReach)
                } else {
                    None
                }
            },
            _ => None,
        }
    }

    /// Executes the instruction under the instruction pointer, with `input`
    /// as the value that an input instruction stores. The cell that an
    /// output instruction puts out is returned in the outcome. At the end
    /// the host is shown the machine, and the cycle counter goes up.
    pub fn step<T: CellType, H: Host<T>>(
        &mut self,
        context: &mut RuntimeContext<T>,
        host: &H,
        input: T,
    ) -> (outcome: StepOutcome<T>)
        ensures
            old(self).steps_to(old(context), input, final(self), final(context), outcome),
    {
        let Some(instruction) = self.instruction() else {
            return StepOutcome::Halted;
        };
        let at = context.data_pointer;
        if let Some(fault) = Self::find_fault(instruction, at, context.pointer_policy, self.cycles) {
            return StepOutcome::Faulted(fault);
        }
        let mut read: Option<T> = None;
        let mut written: Option<T> = None;
        let mut next_instr = true;
        match instruction {
            Instruction::IncrementDataPointer => {
                context.data_pointer = if at == usize::MAX {
                    0
                } else {
                    at + 1
                };
            },
            Instruction::DecrementDataPointer => {
                context.data_pointer = if at == 0 {
                    usize::MAX
                } else {
                    at - 1
                };
            },
            Instruction::IncrementData => context.increment_cell(at),
            Instruction::DecrementData => context.decrement_cell(at),
            Instruction::OutputData => {
                written = Some(context.read_cell(at));
            },
            Instruction::AcceptData => {
                *context.get_cell(at) = input;
                read = Some(input);
            },
            Instruction::JumpForwardsIfZero => {
                if context.read_cell(at).same_as(T::zero()) {
                    self.jump_forwards(context, host);
                    next_instr = false;
                }
            },
            Instruction::JumpBackwardsIfNonzero => {
                if !context.read_cell(at).same_as(T::zero()) {
                    self.jump_backwards(context, host);
                    next_instr = false;
                }
            },
        }
        if next_instr {
            let length = self.instructions.len();
            assert(self.instruction_pointer < length);
            self.instruction_pointer += 1;
        }
        host.refresh(self, context);
        self.cycles += 1;
        StepOutcome::Done { read, written }
    }

    /// Executes the instruction under the instruction pointer. An input
    /// instruction takes its value from the host, and the outcome tells
    /// which value that was; the cell that an output instruction puts out
    /// is returned in the outcome.
    pub fn execute_instruction<T: CellType, H: Host<T>>(
        &mut self,
        context: &mut RuntimeContext<T>,
        host: &mut H,
    ) -> (outcome: StepOutcome<T>)
        ensures
            exists|input: T| #[trigger]
                old(self).steps_to(old(context), input, final(self), final(context), outcome),
    {
        let awaits_input = match self.instruction() {
            Some(Instruction::AcceptData) => Self::find_fault(
                Instruction::AcceptData,
                context.data_pointer,
                context.pointer_policy,
                self.cycles,
            ).is_none(),
            _ => false,
        };
        let input = if awaits_input {
            host.read()
        } else {
            T::zero()
        };
        self.step(context, host, input)
    }

    /// The instruction under the instruction pointer, `None` once the
    /// program has halted.
    pub fn instruction(&self) -> (instruction: Option<Instruction>)
        ensures
            instruction == self.current(),
    {
        if self.instruction_pointer < self.instructions.len() {
            Some(self.instructions[self.instruction_pointer].instruction)
        } else {
            None
        }
    }

    /// The instruction under the instruction pointer with its place in the
    /// source, `None` once the program has halted.
    pub fn loaded_instruction(&self) -> (instruction: Option<LoadedInstruction>)
        ensures
            instruction == if self.instruction_pointer < self.instructions@.len() {
                Some(self.instructions@[self.instruction_pointer as int])
            } else {
                None
            },
    {
        if self.instruction_pointer < self.instructions.len() {
            Some(self.instructions[self.instruction_pointer])
        } else {
            None
        }
    }

    /// Whether there is an instruction left to execute.
    pub fn has_remaining_instructions(&self) -> (remaining: bool)
        ensures
            remaining == (self.instruction_pointer < self.instructions@.len()),
    {
        self.instructions.len() > self.instruction_pointer
    }
}

} // verus!
