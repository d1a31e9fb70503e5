use bfmachine::interactive::command::{parse_command, Command, CommandResult};
use bfmachine::interactive::speed::{has_few_digits, ClockSpeed};
use bfmachine::interactive::{
    complete, describe_failure, execute_command, submit_command, Activity, CommandAction,
    CommandHistory, Completion, InteractiveState, OutputKind,
};
use bfmachine::runtime::context::RuntimeContext;
use bfmachine::runtime::{Host, Script, StepOutcome};

struct Silent;

impl Host<u64> for Silent {
    fn read(&mut self) -> u64 {
        0
    }

    fn refresh(&self, _script: &Script, _context: &RuntimeContext<u64>) {}
}

fn session(source: &str) -> InteractiveState {
    InteractiveState::new(Script::new(String::from(source)))
}

fn messages(state: &InteractiveState) -> Vec<(OutputKind, String)> {
    state.command_output.iter().map(|output| (output.kind, output.message.clone())).collect()
}

#[test]
fn new_session_is_paused_in_the_band_of_a_byte() {
    let state = session("+");
    assert!(state.execution_paused);
    assert!(!state.should_quit);
    assert_eq!(state.execution_clock_speed.as_secs(), 0);
    assert_eq!(state.execution_clock_speed.subsec_nanos(), 100_000_000);
    assert_eq!(state.runtime_context.min_cell_value, 0);
    assert_eq!(state.runtime_context.max_cell_value, 255);
    assert_eq!(state.activity, Activity::Normal);
    assert!(state.command_output.is_empty());
    assert!(state.last_executed_instruction.is_none());
}

#[test]
fn start_pause_and_quit_set_their_flags() {
    let mut state = session("+");
    assert!(matches!(execute_command(&Command::Start, &mut state), CommandAction::Done));
    assert!(!state.execution_paused);
    execute_command(&Command::Pause, &mut state);
    assert!(state.execution_paused);
    execute_command(&Command::Quit, &mut state);
    assert!(state.should_quit);
    assert!(state.command_output.is_empty());
}

#[test]
fn pointers_are_set_without_a_check() {
    let mut state = session("+");
    execute_command(&Command::SetInstructionPointer { idx: 99 }, &mut state);
    assert_eq!(state.script.instruction_pointer, 99);
    execute_command(&Command::SetDataPointer { idx: 1234 }, &mut state);
    assert_eq!(state.runtime_context.data_pointer, 1234);
    assert!(state.runtime_context.data.is_empty());
}

#[test]
fn set_data_writes_and_clamps() {
    let mut state = session("+");
    execute_command(&Command::SetData { idx: Some(2), value: 300 }, &mut state);
    assert_eq!(state.runtime_context.data, vec![0, 0, 45]);
    state.runtime_context.data_pointer = 1;
    execute_command(&Command::SetData { idx: None, value: 7 }, &mut state);
    assert_eq!(state.runtime_context.data, vec![0, 7, 45]);
}

#[test]
fn set_data_at_the_last_address_is_told_as_failure() {
    let mut state = session("+");
    execute_command(&Command::SetData { idx: Some(usize::MAX), value: 1 }, &mut state);
    assert!(state.runtime_context.data.is_empty());
    assert_eq!(
        messages(&state),
        vec![(OutputKind::Error, String::from("Error: cell address out of reach"))]
    );
}

#[test]
fn set_speed_tells_the_new_speed() {
    let mut state = session("+");
    let speed = ClockSpeed::new(2, 500_000_000).unwrap();
    execute_command(&Command::SetSpeed { speed }, &mut state);
    assert_eq!(state.execution_clock_speed.as_secs(), 2);
    assert_eq!(state.execution_clock_speed.subsec_nanos(), 500_000_000);
    assert_eq!(messages(&state), vec![(OutputKind::Info, String::from("Set speed to 2s 500ms"))]);
}

#[test]
fn set_bounds_changes_the_band() {
    let mut state = session("+");
    execute_command(&Command::SetBounds { lower: 10, upper: 20 }, &mut state);
    assert_eq!(state.runtime_context.min_cell_value, 10);
    assert_eq!(state.runtime_context.max_cell_value, 20);
}

#[test]
fn load_asks_for_the_file_and_keeps_the_memory() {
    let mut state = session("+");
    let mut host = Silent;
    state.execute(&mut host);
    assert_eq!(state.runtime_context.data, vec![1]);
    let command = Command::LoadScriptFromFile { path: String::from("next.bf") };
    match execute_command(&command, &mut state) {
        CommandAction::ReadFile { path } => assert_eq!(path, "next.bf"),
        CommandAction::Done => panic!("nothing asked"),
    }
    assert_eq!(state.script.source, "+");
    state.finish_load("next.bf", Ok(String::from(">>-")));
    assert_eq!(state.script.source, ">>-");
    assert_eq!(state.script.instructions.len(), 3);
    assert_eq!(state.script.instruction_pointer, 0);
    assert_eq!(state.script.cycles, 0);
    assert_eq!(state.runtime_context.data, vec![1]);
    assert_eq!(messages(&state), vec![(OutputKind::Info, String::from("Loaded file next.bf"))]);
}

#[test]
fn failed_load_is_told_and_changes_nothing() {
    let mut state = session("+");
    state.finish_load("gone.bf", Err(String::from("No such file")));
    assert_eq!(state.script.source, "+");
    assert_eq!(messages(&state), vec![(OutputKind::Error, String::from("Error: No such file"))]);
}

#[test]
fn execute_remembers_the_instruction() {
    let mut state = session("a+.");
    let mut host = Silent;
    assert!(matches!(state.execute(&mut host), StepOutcome::Done { .. }));
    assert_eq!(state.last_executed_instruction.unwrap().source_position, 1);
    assert!(matches!(state.execute(&mut host), StepOutcome::Done { written: Some(1), .. }));
    assert_eq!(state.last_executed_instruction.unwrap().source_position, 2);
    assert!(matches!(state.execute(&mut host), StepOutcome::Halted));
    assert_eq!(state.last_executed_instruction.unwrap().source_position, 2);
    assert_eq!(state.script.cycles, 2);
}

#[test]
fn submitted_command_is_applied() {
    let mut state = session("+");
    state.activity = Activity::Command;
    assert!(matches!(submit_command(&mut state, "set data(3) = 0x101"), CommandAction::Done));
    assert_eq!(state.runtime_context.data, vec![0, 0, 0, 2]);
    assert_eq!(state.activity, Activity::Normal);
    state.activity = Activity::Command;
    submit_command(&mut state, "start");
    assert!(!state.execution_paused);
    assert_eq!(state.activity, Activity::Normal);
    assert!(matches!(submit_command(&mut state, "load a.bf"), CommandAction::ReadFile { .. }));
}

#[test]
fn submitted_nonsense_is_told_as_failure() {
    let mut state = session("+");
    state.activity = Activity::Command;
    submit_command(&mut state, "bogus");
    submit_command(&mut state, "set");
    submit_command(&mut state, "");
    assert_eq!(
        messages(&state),
        vec![
            (
                OutputKind::Error,
                String::from("Error: could not parse command (unrecognised command 'bogus')")
            ),
            (
                OutputKind::Error,
                String::from("Error: command is not complete (and maybe has errors)")
            ),
            (
                OutputKind::Error,
                String::from("Error: command is not complete (and maybe has errors)")
            ),
        ]
    );
    assert_eq!(state.activity, Activity::Normal);
}

#[test]
fn failure_message_joins_the_reasons() {
    match parse_command::<u64>("set nothing here", false) {
        CommandResult::CannotContinue { mut parts } => {
            assert_eq!(
                describe_failure(&parts),
                "could not parse command (unknown variable 'nothing')"
            );
            let mut extra = parts[1].clone();
            extra.state = bfmachine::interactive::command::CommandPartState::Invalid(Some(
                String::from("second"),
            ));
            parts.push(extra);
            assert_eq!(
                describe_failure(&parts),
                "could not parse command (unknown variable 'nothing', second)"
            );
            parts.clear();
            assert_eq!(describe_failure(&parts), "could not parse command ()");
        }
        _ => panic!("not refused"),
    }
}

#[test]
fn history_walks_between_the_latest_and_the_oldest() {
    let mut history = CommandHistory::new();
    history.select_older();
    assert_eq!(history.history_selected, None);
    assert_eq!(history.selected_line(), "");
    history.remember(String::from("first"));
    history.remember(String::from("second"));
    history.remember(String::from("third"));
    assert_eq!(history.history_selected, None);
    history.select_older();
    assert_eq!(history.selected_line(), "third");
    history.select_older();
    assert_eq!(history.selected_line(), "second");
    history.select_older();
    history.select_older();
    assert_eq!(history.history_selected, Some(2));
    assert_eq!(history.selected_line(), "first");
    history.select_newer();
    assert_eq!(history.selected_line(), "second");
    history.select_newer();
    history.select_newer();
    assert_eq!(history.history_selected, None);
    assert_eq!(history.selected_line(), "");
    history.select_newer();
    assert_eq!(history.history_selected, None);
    history.select_older();
    history.remember(String::from("fourth"));
    assert_eq!(history.history_selected, None);
    assert_eq!(history.history.len(), 4);
    assert_eq!(history.history[0], "fourth");
}

#[test]
fn completion_writes_out_the_suggestion() {
    let line = "load sr";
    let mut result = parse_command::<u64>(line, true);
    if let CommandResult::Parsed { parts, .. } = &mut result {
        parts[1].state = bfmachine::interactive::command::CommandPartState::Autocomplete {
            suggestion: String::from("src/lib"),
        };
    }
    match complete(line, &result) {
        Completion::Completed(text) => assert_eq!(text, "load src/lib"),
        _ => panic!("not completed"),
    }
    let result = parse_command::<u64>("start", true);
    assert!(matches!(complete("start", &result), Completion::Unavailable));
    let result = parse_command::<u64>("sta", true);
    assert!(matches!(complete("sta", &result), Completion::Unchanged));
    let result = parse_command::<u64>("", true);
    assert!(matches!(complete("", &result), Completion::Unchanged));
}

#[test]
fn clock_speed_keeps_nanoseconds_below_a_second() {
    assert!(ClockSpeed::new(1, 1_000_000_000).is_none());
    let speed = ClockSpeed::new(1, 999_999_999).unwrap();
    assert_eq!(speed.as_secs(), 1);
    assert_eq!(speed.subsec_nanos(), 999_999_999);
    let speed = ClockSpeed::from_millis(1234);
    assert_eq!(speed.as_secs(), 1);
    assert_eq!(speed.subsec_nanos(), 234_000_000);
    let speed = ClockSpeed::from_millis(u64::MAX);
    assert_eq!(speed.as_secs(), u64::MAX / 1000);
    assert_eq!(speed.subsec_nanos(), (u64::MAX % 1000) as u32 * 1_000_000);
}

#[test]
fn clock_speed_reads_durations_of_few_digits() {
    assert!(has_few_digits(""));
    assert!(has_few_digits("no digit at all"));
    assert!(has_few_digits("12345678901"));
    assert!(!has_few_digits("123456789012"));
    assert!(has_few_digits("1é2é3é4é5é6é7é8é9é0é1"));
    assert!(!has_few_digits("1é2é3é4é5é6é7é8é9é0é1é2"));
    let speed = ClockSpeed::read("2m 3s").unwrap();
    assert_eq!(speed.as_secs(), 123);
    assert_eq!(
        ClockSpeed::read("18446744073709551615s 1000ms").unwrap_err(),
        "too many digits in a duration"
    );
    assert_eq!(
        ClockSpeed::read("soon").unwrap_err(),
        humantime::parse_duration("soon").unwrap_err().to_string()
    );
}
