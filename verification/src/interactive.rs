//! The operator's side of the machine: the state of a session, and what a
//! command does to it.

use std::collections::VecDeque;
use vstd::prelude::*;
use vstd::string::*;
use vstd::utf8::*;

pub mod command;
pub mod keywords;
pub mod path;
pub mod segments;
pub mod speed;
pub mod text;

use crate::interactive::command::{
    parse_command, parsed, views, Command, CommandPart, CommandPartState, CommandResult,
    PartStateView, PartView, ResultView,
};
use crate::interactive::speed::{formatted_duration, ClockSpeed};
use crate::interactive::text::{boundary, lemma_boundary_is_char_boundary, slice_str};
use crate::runtime::context::{clamped, grown, CellType, RuntimeContext};
use crate::runtime::{Host, LoadedInstruction, Script, StepOutcome};

verus! {

/// The cell type of an interactive session: wide enough for every band.
pub type Cell = u64;

/// What the keyboard currently serves.
#[derive(Copy, Clone, PartialEq, Eq, Debug, Structural)]
pub enum Activity {
    /// Keys drive the machine.
    Normal,
    /// Keys go to the command line.
    Command,
}

/// Whether a message reports an event or a failure.
#[derive(Copy, Clone, PartialEq, Eq, Debug, Structural)]
pub enum OutputKind {
    /// Something happened as asked.
    Info,
    /// Something could not be done.
    Error,
}

/// A message to the operator.
pub struct CommandOutput {
    pub kind: OutputKind,
    pub message: String,
}

/// What the host has to do after a command.
pub enum CommandAction {
    /// Nothing.
    Done,
    /// Read the file at `path` and hand what came of it to
    /// `InteractiveState::finish_load`.
    ReadFile { path: String },
}

/// The state of an interactive session.
pub struct InteractiveState {
    pub should_quit: bool,
    pub execution_paused: bool,
    pub execution_clock_speed: ClockSpeed,
    pub last_executed_instruction: Option<LoadedInstruction>,
    pub script: Script,
    pub runtime_context: RuntimeContext<Cell>,
    pub activity: Activity,
    pub command_output: Vec<CommandOutput>,
}

/// `items` in a row with `sep` between each two of them.
pub open spec fn joined(items: Seq<Seq<char>>, sep: Seq<char>) -> Seq<char>
    decreases items.len(),
{
    if items.len() == 0 {
        Seq::empty()
    } else if items.len() == 1 {
        items[0]
    } else {
        joined(items.drop_last(), sep) + sep + items.last()
    }
}

/// The texts of a list of string slices.
pub open spec fn texts_of(items: Seq<&str>) -> Seq<Seq<char>> {
    items.map_values(|item: &str| item@)
}

/// Puts `items` in a row with `sep` between each two of them, through
/// `itertools::join`, which writes the first item and then, for every
/// further item, the separator and the item.
#[verifier::external_body]
fn join_texts(items: &Vec<&str>, sep: &str) -> (text: String)
    ensures
        text@ == joined(texts_of(items@), sep@),
{
    itertools::join(items.iter(), sep)
}

/// The reasons given by the segments that are invalid, in the order of the
/// segments.
pub open spec fn reasons(parts: Seq<PartStateView>) -> Seq<Seq<char>>
    decreases parts.len(),
{
    if parts.len() == 0 {
        Seq::empty()
    } else {
        let before = reasons(parts.drop_last());
        match parts.last() {
            PartStateView::Invalid(Some(reason)) => before.push(reason),
            _ => before,
        }
    }
}

/// The states of a row of segments.
pub open spec fn states<'a>(parts: Seq<CommandPart<'a>>) -> Seq<PartStateView> {
    parts.map_values(|part: CommandPart<'a>| part.state@)
}

/// The message for a command line that cannot be a command: the reasons
/// that its invalid segments give.
pub open spec fn failure_message(parts: Seq<PartStateView>) -> Seq<char> {
    "could not parse command ("@ + joined(reasons(parts), ", "@) + ")"@
}

/// Writes the message for a command line that cannot be a command.
pub fn describe_failure(parts: &Vec<CommandPart<'_>>) -> (message: String)
    ensures
        message@ == failure_message(states(parts@)),
{
    let mut errors: Vec<&str> = Vec::new();
    let mut i: usize = 0;
    while i < parts.len()
        invariant
            i <= parts@.len(),
            texts_of(errors@) == reasons(states(parts@).take(i as int)),
        decreases parts.len() - i,
    {
        proof {
            let upto = states(parts@).take(i + 1);
            assert(upto.drop_last() =~= states(parts@).take(i as int));
            assert(upto.last() == parts@[i as int].state@);
        }
        match &parts[i].state {
            CommandPartState::Invalid(Some(reason)) => {
                let ghost before = errors@;
                errors.push(reason.as_str());
                assert(texts_of(errors@) =~= texts_of(before).push(reason@));
            },
            _ => {},
        }
        i += 1;
    }
    proof {
        assert(states(parts@).take(i as int) =~= states(parts@));
    }
    let mut message = String::from_str("could not parse command (");
    message.append(join_texts(&errors, ", ").as_str());
    message.append(")");
    message
}

impl InteractiveState {
    /// A session on `script` as it starts: paused, at one instruction in a
    /// tenth of a second, with empty memory whose cells live in the band of
    /// a byte.
    pub fn new(script: Script) -> (state: Self)
        ensures
            state.script == script,
            !state.should_quit,
            state.execution_paused,
            state.execution_clock_speed.total_nanos() == 100_000_000,
            state.last_executed_instruction is None,
            state.activity == Activity::Normal,
            state.command_output@.len() == 0,
            state.runtime_context.data@.len() == 0,
            state.runtime_context.data_pointer == 0,
            state.runtime_context.band_min() == 0,
            state.runtime_context.band_max() == 255,
    {
        let mut runtime_context = RuntimeContext::<Cell>::new();
        runtime_context.min_cell_value = 0;
        runtime_context.max_cell_value = 255;
        Self {
            should_quit: false,
            execution_paused: true,
            execution_clock_speed: ClockSpeed::from_millis(100),
            last_executed_instruction: None,
            script,
            runtime_context,
            activity: Activity::Normal,
            command_output: Vec::new(),
        }
    }

    /// Everything but the messages is the same in `self` and `other`.
    pub open spec fn same_but_output(&self, other: &Self) -> bool {
        &&& self.should_quit == other.should_quit
        &&& self.execution_paused == other.execution_paused
        &&& self.execution_clock_speed == other.execution_clock_speed
        &&& self.last_executed_instruction == other.last_executed_instruction
        &&& self.script == other.script
        &&& self.runtime_context == other.runtime_context
        &&& self.activity == other.activity
    }

    /// `self` is `other` with one more message, of the given kind and text.
    pub open spec fn tells(&self, other: &Self, kind: OutputKind, message: Seq<char>) -> bool {
        &&& self.same_but_output(other)
        &&& self.command_output@.len() == other.command_output@.len() + 1
        &&& self.command_output@.drop_last() == other.command_output@
        &&& self.command_output@.last().kind == kind
        &&& self.command_output@.last().message@ == message
    }

    /// Tells the operator of an event.
    pub fn cmd_info(&mut self, message: String)
        ensures
            final(self).tells(old(self), OutputKind::Info, message@),
    {
        self.command_output.push(CommandOutput { kind: OutputKind::Info, message });
        assert(self.command_output@.drop_last() =~= old(self).command_output@);
    }

    /// Tells the operator of a failure: the message follows the word
    /// `Error`.
    pub fn cmd_error(&mut self, message: &str)
        ensures
            final(self).tells(old(self), OutputKind::Error, "Error: "@ + message@),
    {
        let mut text = String::from_str("Error: ");
        text.append(message);
        self.command_output.push(CommandOutput { kind: OutputKind::Error, message: text });
        assert(self.command_output@.drop_last() =~= old(self).command_output@);
    }

    /// Makes the machine slower by `step`, unless the time for an
    /// instruction could then no longer be counted.
    pub fn slow_down(&mut self, step: ClockSpeed)
        ensures
            *final(self) == (InteractiveState {
                execution_clock_speed: final(self).execution_clock_speed,
                ..*old(self)
            }),
            ({
                let before = old(self).execution_clock_speed.total_nanos();
                final(self).execution_clock_speed.total_nanos() == if before + step.total_nanos()
                    < (u64::MAX + 1) * 1_000_000_000 {
                    before + step.total_nanos()
                } else {
                    before
                }
            }),
    {
        match self.execution_clock_speed.checked_add(&step) {
            Some(speed) => {
                self.execution_clock_speed = speed;
            },
            None => {},
        }
    }

    /// Makes the machine faster by `step`, unless an instruction already
    /// takes less time than that.
    pub fn speed_up(&mut self, step: ClockSpeed)
        ensures
            *final(self) == (InteractiveState {
                execution_clock_speed: final(self).execution_clock_speed,
                ..*old(self)
            }),
            ({
                let before = old(self).execution_clock_speed.total_nanos();
                final(self).execution_clock_speed.total_nanos() == if step.total_nanos() <= before {
                    before - step.total_nanos()
                } else {
                    before as int
                }
            }),
    {
        match self.execution_clock_speed.checked_sub(&step) {
            Some(speed) => {
                self.execution_clock_speed = speed;
            },
            None => {},
        }
    }

    /// Executes one instruction, if one is left, and remembers which.
    pub fn execute<H: Host<Cell>>(&mut self, host: &mut H) -> (outcome: StepOutcome<Cell>)
        ensures
            final(self).should_quit == old(self).should_quit,
            final(self).execution_paused == old(self).execution_paused,
            final(self).execution_clock_speed == old(self).execution_clock_speed,
            final(self).activity == old(self).activity,
            final(self).command_output == old(self).command_output,
            old(self).script.current() is None ==> outcome is Halted && *final(self) == *old(self),
            old(self).script.current() is Some ==> final(self).last_executed_instruction == Some(
                old(self).script.instructions@[old(self).script.instruction_pointer as int],
            ),
            exists|input: Cell| #[trigger]
                old(self).script.steps_to(
                    &old(self).runtime_context,
                    input,
                    &final(self).script,
                    &final(self).runtime_context,
                    outcome,
                ),
    {
        if !self.script.has_remaining_instructions() {
            proof {
                assert(self.script.steps_to(
                    &self.runtime_context,
                    0,
                    &self.script,
                    &self.runtime_context,
                    StepOutcome::Halted,
                ));
            }
            return StepOutcome::Halted;
        }
        self.last_executed_instruction = self.script.loaded_instruction();
        let ghost script = self.script;
        let ghost context = self.runtime_context;
        let outcome = self.script.execute_instruction(&mut self.runtime_context, host);
        proof {
            let input = choose|input: Cell| #[trigger]
                script.steps_to(&context, input, &self.script, &self.runtime_context, outcome);
            assert(old(self).script.steps_to(
                &old(self).runtime_context,
                input,
                &self.script,
                &self.runtime_context,
                outcome,
            ));
        }
        outcome
    }

    /// Takes what came of reading the file at `path` after a `load`
    /// command: its text becomes the program, which starts afresh while the
    /// memory stays as it is; a failure is reported and changes nothing
    /// else.
    pub fn finish_load(&mut self, path: &str, read: Result<String, String>)
        ensures
            match read {
                Ok(content) => {
                    &&& final(self).script.source == content
                    &&& final(self).script.instructions@ == crate::runtime::loaded(content@)
                    &&& final(self).script.instruction_pointer == 0
                    &&& final(self).script.cycles == 0
                    &&& final(self).should_quit == old(self).should_quit
                    &&& final(self).execution_paused == old(self).execution_paused
                    &&& final(self).execution_clock_speed == old(self).execution_clock_speed
                    &&& final(self).last_executed_instruction
                        == old(self).last_executed_instruction
                    &&& final(self).runtime_context == old(self).runtime_context
                    &&& final(self).activity == old(self).activity
                    &&& final(self).command_output@.len() == old(self).command_output@.len() + 1
                    &&& final(self).command_output@.drop_last() == old(self).command_output@
                    &&& final(self).command_output@.last().kind == OutputKind::Info
                    &&& final(self).command_output@.last().message@ == "Loaded file "@ + path@
                },
                Err(reason) => final(self).tells(old(self), OutputKind::Error, "Error: "@ + reason@),
            },
    {
        match read {
            Ok(content) => {
                self.script = Script::new(content);
                let mut message = String::from_str("Loaded file ");
                message.append(path);
                self.command_output.push(CommandOutput { kind: OutputKind::Info, message });
                assert(self.command_output@.drop_last() =~= old(self).command_output@);
            },
            Err(reason) => {
                self.cmd_error(reason.as_str());
            },
        }
    }
}

/// What a command makes of a session: `after` and `action` are what
/// `command` makes of `before`.
///
/// Starting and pausing set the pause flag; the pointers are overwritten as
/// they are given; a cell is written and then brought into the band; the
/// speed and the bounds are taken over; `load` asks the host for the file
/// and `quit` raises the quit flag.
pub open spec fn applies(
    command: Command<Cell>,
    before: InteractiveState,
    after: InteractiveState,
    action: CommandAction,
) -> bool {
    match command {
        Command::Start => action is Done && after == (InteractiveState {
            execution_paused: false,
            ..before
        }),
        Command::Pause => action is Done && after == (InteractiveState {
            execution_paused: true,
            ..before
        }),
        Command::Quit => action is Done && after == (InteractiveState {
            should_quit: true,
            ..before
        }),
        Command::SetInstructionPointer { idx } => action is Done && after == (InteractiveState {
            script: Script { instruction_pointer: idx, ..before.script },
            ..before
        }),
        Command::SetDataPointer { idx } => action is Done && after == (InteractiveState {
            runtime_context: RuntimeContext { data_pointer: idx, ..before.runtime_context },
            ..before
        }),
        Command::SetBounds { lower, upper } => action is Done && after == (InteractiveState {
            runtime_context: RuntimeContext {
                min_cell_value: lower,
                max_cell_value: upper,
                ..before.runtime_context
            },
            ..before
        }),
        Command::SetSpeed { speed } => {
            &&& action is Done
            &&& after.tells(
                &(InteractiveState { execution_clock_speed: speed, ..before }),
                OutputKind::Info,
                "Set speed to "@ + formatted_duration(speed.total_nanos()),
            )
        },
        Command::SetData { idx, value } => {
            let at = match idx {
                Some(at) => at,
                None => before.runtime_context.data_pointer,
            };
            &&& action is Done
            &&& if at == usize::MAX {
                after.tells(
                    &before,
                    OutputKind::Error,
                    "Error: "@ + "cell address out of reach"@,
                )
            } else {
                &&& after.should_quit == before.should_quit
                &&& after.execution_paused == before.execution_paused
                &&& after.execution_clock_speed == before.execution_clock_speed
                &&& after.last_executed_instruction == before.last_executed_instruction
                &&& after.script == before.script
                &&& after.activity == before.activity
                &&& after.command_output == before.command_output
                &&& after.runtime_context.same_settings(&before.runtime_context)
                &&& after.runtime_context.values() == grown(
                    before.runtime_context.values(),
                    at as int,
                ).update(
                    at as int,
                    clamped(
                        value as nat,
                        before.runtime_context.band_min(),
                        before.runtime_context.band_max(),
                    ),
                )
            }
        },
        Command::LoadScriptFromFile { path } => {
            &&& after == before
            &&& action matches CommandAction::ReadFile { path: asked }
            &&& asked@ == path@
        },
    }
}

/// Applies a command to the session. Every command can be applied; what
/// cannot be done is told to the operator.
pub fn execute_command(command: &Command<Cell>, state: &mut InteractiveState) -> (action:
    CommandAction)
    ensures
        applies(*command, *old(state), *final(state), action),
{
    match command {
        Command::Start => {
            state.execution_paused = false;
        },
        Command::Pause => {
            state.execution_paused = true;
        },
        Command::SetInstructionPointer { idx } => {
            state.script.instruction_pointer = *idx;
        },
        Command::SetDataPointer { idx } => {
            state.runtime_context.data_pointer = *idx;
        },
        Command::SetData { idx, value } => {
            let at = match idx {
                Some(at) => *at,
                None => state.runtime_context.data_pointer,
            };
            if at == usize::MAX {
                state.cmd_error("cell address out of reach");
            } else {
                *state.runtime_context.get_cell(at) = *value;
                let ghost written = state.runtime_context.values();
                state.runtime_context.fix_cell(at);
                proof {
                    let start = old(state).runtime_context.values();
                    let band_min = old(state).runtime_context.band_min();
                    let band_max = old(state).runtime_context.band_max();
                    assert(written == grown(start, at as int).update(at as int, *value as nat));
                    assert(grown(written, at as int) =~= written);
                    assert(written[at as int] == *value as nat);
                    assert(state.runtime_context.values() =~= grown(start, at as int).update(
                        at as int,
                        clamped(*value as nat, band_min, band_max),
                    ));
                }
            }
        },
        Command::SetSpeed { speed } => {
            state.execution_clock_speed = *speed;
            let mut message = String::from_str("Set speed to ");
            message.append(speed.format().as_str());
            state.cmd_info(message);
        },
        Command::SetBounds { lower, upper } => {
            state.runtime_context.min_cell_value = *lower;
            state.runtime_context.max_cell_value = *upper;
        },
        Command::LoadScriptFromFile { path } => {
            return CommandAction::ReadFile { path: path.clone() };
        },
        Command::Quit => {
            state.should_quit = true;
        },
    }
    CommandAction::Done
}

/// The states of a row of segments given as plain values.
pub open spec fn states_of(parts: Seq<PartView>) -> Seq<PartStateView> {
    parts.map_values(|part: PartView| part.state)
}

/// What the submission of the command line `line` makes of a session: the
/// line is read without suggestions; a command is applied, anything else is
/// told to the operator as a failure; and the keyboard drives the machine
/// again.
pub open spec fn submits(
    line: Seq<u8>,
    before: InteractiveState,
    after: InteractiveState,
    action: CommandAction,
) -> bool {
    match parsed(line, false, u64::MAX as nat) {
        ResultView::Parsed { command: view, .. } => exists|
            command: Command<Cell>,
            applied: InteractiveState,
        |
            {
                &&& #[trigger] applies(command, before, applied, action)
                &&& command@ == view
                &&& after == (InteractiveState { activity: Activity::Normal, ..applied })
            },
        ResultView::CannotContinue { parts } => {
            &&& action is Done
            &&& after.tells(
                &(InteractiveState { activity: Activity::Normal, ..before }),
                OutputKind::Error,
                "Error: "@ + failure_message(states_of(parts)),
            )
        },
        ResultView::TooShort { .. } => {
            &&& action is Done
            &&& after.tells(
                &(InteractiveState { activity: Activity::Normal, ..before }),
                OutputKind::Error,
                "Error: "@ + "command is not complete (and maybe has errors)"@,
            )
        },
    }
}

/// Takes a command line that the operator has confirmed.
pub fn submit_command(state: &mut InteractiveState, line: &str) -> (action: CommandAction)
    ensures
        submits(line.spec_bytes(), *old(state), *final(state), action),
{
    let action = match parse_command::<Cell>(line, false) {
        CommandResult::Parsed { command, .. } => {
            let action = execute_command(&command, state);
            let ghost applied = *state;
            state.activity = Activity::Normal;
            assert(applies(command, *old(state), applied, action));
            action
        },
        CommandResult::CannotContinue { parts } => {
            assert(states(parts@) =~= states_of(views(parts@)));
            let message = describe_failure(&parts);
            state.cmd_error(message.as_str());
            state.activity = Activity::Normal;
            CommandAction::Done
        },
        CommandResult::TooShort { .. } => {
            state.cmd_error("command is not complete (and maybe has errors)");
            state.activity = Activity::Normal;
            CommandAction::Done
        },
    };
    action
}

/// The command lines given so far, the latest first, and which of them the
/// operator has gone back to.
pub struct CommandHistory {
    pub history: VecDeque<String>,
    pub history_selected: Option<usize>,
}

impl CommandHistory {
    /// No line given and none selected.
    pub fn new() -> (history: Self)
        ensures
            history.history@.len() == 0,
            history.history_selected is None,
    {
        Self { history: VecDeque::new(), history_selected: None }
    }

    /// Puts `line` in front of the lines given so far; no line is selected
    /// after that.
    pub fn remember(&mut self, line: String)
        ensures
            final(self).history@ == seq![line] + old(self).history@,
            final(self).history_selected is None,
    {
        self.history.push_front(line);
        self.history_selected = None;
    }

    /// Which line is selected after a step towards older lines: the latest
    /// line at first, then the next older one, and the oldest one at last.
    pub open spec fn older(selected: Option<usize>, count: nat) -> Option<usize> {
        if count == 0 {
            selected
        } else {
            match selected {
                None => Some(0),
                Some(at) => if at + 1 >= count {
                    Some((count - 1) as usize)
                } else {
                    Some((at + 1) as usize)
                },
            }
        }
    }

    /// Which line is selected after a step towards newer lines: the next
    /// newer one, and none behind the latest line.
    pub open spec fn newer(selected: Option<usize>, count: nat) -> Option<usize> {
        if count == 0 {
            selected
        } else {
            match selected {
                None => None,
                Some(at) => if at == 0 {
                    None
                } else {
                    Some((at - 1) as usize)
                },
            }
        }
    }

    /// The text of the selected line: the empty text where none is
    /// selected or the selection points at no line.
    pub open spec fn selected_text(selected: Option<usize>, lines: Seq<String>) -> Seq<char> {
        match selected {
            Some(at) => if at < lines.len() {
                lines[at as int]@
            } else {
                Seq::empty()
            },
            None => Seq::empty(),
        }
    }

    /// Goes one line back in the history and returns the line that the
    /// command line shows then. An empty history leaves everything as it
    /// is.
    pub fn select_older(&mut self) -> (shown: Option<String>)
        ensures
            final(self).history == old(self).history,
            final(self).history_selected == Self::older(
                old(self).history_selected,
                old(self).history@.len(),
            ),
            old(self).history@.len() == 0 ==> shown is None,
            old(self).history@.len() > 0 ==> (shown matches Some(line) && line@
                == Self::selected_text(final(self).history_selected, final(self).history@)),
    {
        let count = self.history.len();
        if count == 0 {
            return None;
        }
        self.history_selected = match self.history_selected {
            None => Some(0),
            Some(at) => if at >= count - 1 {
                Some(count - 1)
            } else {
                Some(at + 1)
            },
        };
        Some(self.selected_line())
    }

    /// Goes one line forward in the history and returns the line that the
    /// command line shows then: the empty line behind the latest one. An
    /// empty history leaves everything as it is.
    pub fn select_newer(&mut self) -> (shown: Option<String>)
        ensures
            final(self).history == old(self).history,
            final(self).history_selected == Self::newer(
                old(self).history_selected,
                old(self).history@.len(),
            ),
            old(self).history@.len() == 0 ==> shown is None,
            old(self).history@.len() > 0 ==> (shown matches Some(line) && line@
                == Self::selected_text(final(self).history_selected, final(self).history@)),
    {
        if self.history.len() == 0 {
            return None;
        }
        self.history_selected = match self.history_selected {
            None => None,
            Some(at) => if at == 0 {
                None
            } else {
                Some(at - 1)
            },
        };
        Some(self.selected_line())
    }

    /// The line that the command line shows for the selection.
    pub fn selected_line(&self) -> (line: String)
        ensures
            line@ == Self::selected_text(self.history_selected, self.history@),
    {
        match self.history_selected {
            Some(at) => if at < self.history.len() {
                self.history[at].clone()
            } else {
                String::new()
            },
            None => String::new(),
        }
    }
}

/// What the completion key does to the command line.
pub enum Completion {
    /// The line becomes the given one.
    Completed(String),
    /// The operator is told that nothing can be completed.
    Unavailable,
    /// Nothing happens.
    Unchanged,
}

/// What the completion key makes of the command line `line` whose segments
/// end in the segment `last`, once `line` was read as a complete command or
/// as the beginning of one: the suggestion of the last segment is written
/// out behind the line.
pub open spec fn completion_of(line: Seq<char>, last: CommandPart<'_>) -> Option<Seq<char>> {
    match last.state {
        CommandPartState::Autocomplete { suggestion } => {
            let typed = last.end - last.start;
            let offered = encode_utf8(suggestion@);
            if encode_utf8(line).len() <= offered.len() && boundary(offered, typed) {
                Some(line + decode_utf8(offered.subrange(typed, offered.len() as int)))
            } else {
                None
            }
        },
        _ => None,
    }
}

/// What the completion key does to the command line `line` that was read as
/// `result`.
pub fn complete<T: CellType>(line: &str, result: &CommandResult<'_, T>) -> (completion: Completion)
    ensures
        match *result {
            CommandResult::CannotContinue { .. } => completion is Unchanged,
            _ => if result.parts().len() == 0 {
                completion is Unchanged
            } else {
                let last = result.parts().last();
                match last.state {
                    CommandPartState::Autocomplete { .. } => match completion_of(line@, last) {
                        Some(text) => completion matches Completion::Completed(written)
                            && written@ == text,
                        None => completion is Unchanged,
                    },
                    _ => completion is Unavailable,
                }
            },
        },
{
    let parts = match result {
        CommandResult::TooShort { parts, .. } => parts,
        CommandResult::Parsed { parts, .. } => parts,
        CommandResult::CannotContinue { .. } => {
            return Completion::Unchanged;
        },
    };
    if parts.len() == 0 {
        return Completion::Unchanged;
    }
    let last = &parts[parts.len() - 1];
    match &last.state {
        CommandPartState::Autocomplete { suggestion } => {
            let offered = suggestion.as_str();
            let length = offered.as_bytes().len();
            if last.end < last.start {
                return Completion::Unchanged;
            }
            let typed = last.len();
            if length < line.as_bytes().len() || typed > length || !offered.is_char_boundary(
                typed,
            ) {
                proof {
                    encode_utf8_valid_utf8(offered@);
                    if typed <= length {
                        lemma_boundary_is_char_boundary(offered.spec_bytes(), typed as int);
                    }
                }
                return Completion::Unchanged;
            }
            proof {
                encode_utf8_valid_utf8(offered@);
                lemma_boundary_is_char_boundary(offered.spec_bytes(), typed as int);
                lemma_boundary_is_char_boundary(offered.spec_bytes(), length as int);
            }
            let rest = slice_str(offered, typed, length);
            proof {
                encode_utf8_decode_utf8(rest@);
            }
            let mut written = String::from_str(line);
            written.append(rest);
            Completion::Completed(written)
        },
        _ => Completion::Unavailable,
    }
}

} // verus!
