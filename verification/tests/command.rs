use bfmachine::interactive::command::{
    expect_equals_part, parse_command, parse_duration, parse_number, Command, CommandPart,
    CommandPartState, CommandResult, TargetVariable,
};

fn describe(parts: &[CommandPart]) -> Vec<(usize, usize, String)> {
    parts
        .iter()
        .map(|part| {
            let state = match &part.state {
                CommandPartState::Valid => String::from("valid"),
                CommandPartState::Ignored => String::from("ignored"),
                CommandPartState::Autocomplete { suggestion } => format!("suggest:{suggestion}"),
                CommandPartState::Invalid(Some(reason)) => format!("invalid:{reason}"),
                CommandPartState::Invalid(None) => String::from("invalid"),
            };
            (part.start, part.end, state)
        })
        .collect()
}

fn seg(start: usize, end: usize, state: &str) -> (usize, usize, String) {
    (start, end, String::from(state))
}

fn parsed(text: &str, autocomplete: bool) -> (Vec<(usize, usize, String)>, Command<u64>) {
    match parse_command::<u64>(text, autocomplete) {
        CommandResult::Parsed { parts, command } => (describe(&parts), command),
        CommandResult::CannotContinue { parts } => {
            panic!("{text:?} cannot continue: {:?}", describe(&parts))
        }
        CommandResult::TooShort { parts, message } => {
            panic!("{text:?} is too short: {:?} {message:?}", describe(&parts))
        }
    }
}

fn refused(text: &str, autocomplete: bool) -> Vec<(usize, usize, String)> {
    match parse_command::<u64>(text, autocomplete) {
        CommandResult::CannotContinue { parts } => describe(&parts),
        CommandResult::Parsed { parts, .. } => panic!("{text:?} parsed: {:?}", describe(&parts)),
        CommandResult::TooShort { parts, message } => {
            panic!("{text:?} is too short: {:?} {message:?}", describe(&parts))
        }
    }
}

fn short(text: &str, autocomplete: bool) -> (Vec<(usize, usize, String)>, Option<String>) {
    match parse_command::<u64>(text, autocomplete) {
        CommandResult::TooShort { parts, message } => {
            (describe(&parts), message.map(String::from))
        }
        CommandResult::Parsed { parts, .. } => panic!("{text:?} parsed: {:?}", describe(&parts)),
        CommandResult::CannotContinue { parts } => {
            panic!("{text:?} cannot continue: {:?}", describe(&parts))
        }
    }
}

#[test]
fn set_data_with_index_in_brackets_and_hex_value() {
    let (parts, command) = parsed("set data(5) = 0x1F", false);
    assert!(matches!(command, Command::SetData { idx: Some(5), value: 31 }));
    assert_eq!(
        parts,
        vec![seg(0, 3, "valid"), seg(4, 11, "valid"), seg(12, 13, "valid"), seg(14, 18, "valid")]
    );
}

#[test]
fn half_typed_variable_is_completed() {
    let parts = refused("set spee", true);
    assert_eq!(parts, vec![seg(0, 3, "valid"), seg(4, 8, "suggest:speed")]);
}

#[test]
fn half_typed_variable_without_autocomplete_is_invalid() {
    let parts = refused("set spee", false);
    assert_eq!(parts, vec![seg(0, 3, "valid"), seg(4, 8, "invalid:unknown variable 'spee'")]);
}

#[test]
fn unknown_command_cannot_continue() {
    let parts = refused("bogus", false);
    assert_eq!(parts, vec![seg(0, 5, "invalid:unrecognised command 'bogus'")]);
    let parts = refused("bogus", true);
    assert_eq!(parts, vec![seg(0, 5, "invalid:unrecognised command 'bogus'")]);
}

#[test]
fn empty_line_is_too_short_without_segments() {
    let (parts, message) = short("", false);
    assert!(parts.is_empty());
    assert_eq!(message, None);
    let (parts, message) = short("", true);
    assert!(parts.is_empty());
    assert_eq!(message, None);
}

#[test]
fn plain_commands_parse_in_any_case() {
    assert!(matches!(parsed("start", false).1, Command::Start));
    assert!(matches!(parsed("START", false).1, Command::Start));
    assert!(matches!(parsed("Pause", false).1, Command::Pause));
    assert!(matches!(parsed("qUiT", true).1, Command::Quit));
    assert_eq!(parsed("start", false).0, vec![seg(0, 5, "valid")]);
}

#[test]
fn text_behind_a_plain_command_gets_no_segment() {
    let (parts, command) = parsed("pause now", false);
    assert!(matches!(command, Command::Pause));
    assert_eq!(parts, vec![seg(0, 5, "valid")]);
}

#[test]
fn half_typed_command_is_completed() {
    assert_eq!(refused("sta", true), vec![seg(0, 3, "suggest:start")]);
    assert_eq!(refused("S", true), vec![seg(0, 1, "suggest:start")]);
    assert_eq!(refused("q", true), vec![seg(0, 1, "suggest:quit")]);
    assert_eq!(refused("ex", true), vec![seg(0, 2, "suggest:execute")]);
    assert_eq!(refused("sta", false), vec![seg(0, 3, "invalid:unrecognised command 'sta'")]);
}

#[test]
fn line_that_starts_with_white_space_has_an_empty_command() {
    assert_eq!(refused(" start", false), vec![seg(0, 0, "invalid:unrecognised command ''")]);
    assert_eq!(refused(" start", true), vec![seg(0, 0, "suggest:start")]);
}

#[test]
fn set_alone_is_too_short() {
    let (parts, message) = short("set", false);
    assert_eq!(parts, vec![seg(0, 3, "valid")]);
    assert_eq!(message.as_deref(), Some("variable name required"));
    let (parts, message) = short("set   ", true);
    assert_eq!(parts, vec![seg(0, 3, "valid")]);
    assert_eq!(message.as_deref(), Some("variable name required"));
}

#[test]
fn set_speed_without_value_is_too_short() {
    let (parts, message) = short("set speed", false);
    assert_eq!(parts, vec![seg(0, 3, "valid"), seg(4, 9, "valid")]);
    assert_eq!(message.as_deref(), Some("expecting ="));
    let (parts, message) = short("set speed =", false);
    assert_eq!(parts, vec![seg(0, 3, "valid"), seg(4, 9, "valid"), seg(10, 11, "valid")]);
    assert_eq!(message.as_deref(), Some("expecting value"));
}

#[test]
fn set_data_without_index_or_sign_is_too_short() {
    let (parts, message) = short("set data", false);
    assert_eq!(parts, vec![seg(0, 3, "valid"), seg(4, 8, "valid")]);
    assert_eq!(message.as_deref(), Some("expecting index or ="));
    let (_, message) = short("set data 5", false);
    assert_eq!(message.as_deref(), Some("expecting ="));
    let (_, message) = short("set data =", false);
    assert_eq!(message.as_deref(), Some("expecting value"));
    let (_, message) = short("set data 5 =", false);
    assert_eq!(message.as_deref(), Some("expecting value"));
    let (_, message) = short("set data(5)", false);
    assert_eq!(message.as_deref(), Some("expecting ="));
}

#[test]
fn set_instruction_pointer_by_short_name() {
    let (parts, command) = parsed("set ip = 12", false);
    assert!(matches!(command, Command::SetInstructionPointer { idx: 12 }));
    assert_eq!(
        parts,
        vec![seg(0, 3, "valid"), seg(4, 6, "valid"), seg(7, 8, "valid"), seg(9, 11, "valid")]
    );
}

#[test]
fn set_instruction_pointer_by_long_name() {
    let (parts, command) = parsed("set instruction pointer = 0b101", false);
    assert!(matches!(command, Command::SetInstructionPointer { idx: 5 }));
    assert_eq!(
        parts,
        vec![
            seg(0, 3, "valid"),
            seg(4, 15, "valid"),
            seg(16, 23, "valid"),
            seg(24, 25, "valid"),
            seg(26, 31, "valid"),
        ]
    );
}

#[test]
fn set_data_pointer_by_both_names() {
    assert!(matches!(parsed("set dp = 0o17", false).1, Command::SetDataPointer { idx: 15 }));
    assert!(matches!(
        parsed("SET Data  Pointer = 7", false).1,
        Command::SetDataPointer { idx: 7 }
    ));
}

#[test]
fn instruction_alone_is_no_variable() {
    assert_eq!(
        refused("set instruction", false),
        vec![seg(0, 3, "valid"), seg(4, 15, "invalid:unknown variable 'instruction'")]
    );
    assert_eq!(
        refused("set instruction", true),
        vec![seg(0, 3, "valid"), seg(4, 15, "suggest:instruction pointer")]
    );
    assert_eq!(
        refused("set instruction = 5", false),
        vec![
            seg(0, 3, "valid"),
            seg(4, 15, "invalid:unknown variable 'instruction'"),
            seg(16, 19, "ignored"),
        ]
    );
}

#[test]
fn set_data_forms() {
    assert!(matches!(parsed("set data = 7", false).1, Command::SetData { idx: None, value: 7 }));
    assert!(matches!(parsed("set d = 7", false).1, Command::SetData { idx: None, value: 7 }));
    assert!(matches!(
        parsed("set data 3 = 1fh", false).1,
        Command::SetData { idx: Some(3), value: 31 }
    ));
    assert!(matches!(
        parsed("set d 0x10 = 0B11", false).1,
        Command::SetData { idx: Some(16), value: 3 }
    ));
    assert!(matches!(
        parsed("set DATA(0x10) = 9", false).1,
        Command::SetData { idx: Some(16), value: 9 }
    ));
}

#[test]
fn text_behind_a_value_plays_no_part() {
    let (parts, command) = parsed("set data = 7 and more", false);
    assert!(matches!(command, Command::SetData { idx: None, value: 7 }));
    assert_eq!(
        parts,
        vec![
            seg(0, 3, "valid"),
            seg(4, 8, "valid"),
            seg(9, 10, "valid"),
            seg(11, 12, "valid"),
            seg(13, 21, "ignored"),
        ]
    );
}

#[test]
fn malformed_numbers_cannot_continue() {
    assert_eq!(
        refused("set ip = x", false),
        vec![
            seg(0, 3, "valid"),
            seg(4, 6, "valid"),
            seg(7, 8, "valid"),
            seg(9, 10, "invalid:not a valid number"),
        ]
    );
    assert_eq!(
        refused("set data(x) = 1", false),
        vec![seg(0, 3, "valid"), seg(4, 11, "invalid:not a valid number")]
    );
    assert_eq!(
        refused("set data() = 1", false),
        vec![seg(0, 3, "valid"), seg(4, 10, "invalid:not a valid number")]
    );
    assert_eq!(
        refused("set data x = 1", false),
        vec![seg(0, 3, "valid"), seg(4, 8, "valid"), seg(9, 10, "invalid:not a valid number")]
    );
    assert_eq!(
        refused("set data = 18446744073709551616 tail", false),
        vec![
            seg(0, 3, "valid"),
            seg(4, 8, "valid"),
            seg(9, 10, "valid"),
            seg(11, 31, "invalid:not a valid number"),
            seg(32, 36, "ignored"),
        ]
    );
}

#[test]
fn unclosed_bracket_is_an_unknown_variable() {
    assert_eq!(
        refused("set data(5 = 1", false),
        vec![
            seg(0, 3, "valid"),
            seg(4, 10, "invalid:unknown variable 'data(5'"),
            seg(11, 14, "ignored"),
        ]
    );
}

#[test]
fn anything_but_the_equals_sign_cannot_continue() {
    assert_eq!(
        refused("set ip 5", false),
        vec![seg(0, 3, "valid"), seg(4, 6, "valid"), seg(7, 8, "invalid:expected '=', got '5'")]
    );
    assert_eq!(
        refused("set ip == 5", true),
        vec![seg(0, 3, "valid"), seg(4, 6, "valid"), seg(7, 9, "invalid:expected '=', got '=='")]
    );
}

#[test]
fn set_speed_reads_a_duration() {
    let (parts, command) = parsed("set speed = 100ms", false);
    match command {
        Command::SetSpeed { speed } => {
            assert_eq!(speed.as_secs(), 0);
            assert_eq!(speed.subsec_nanos(), 100_000_000);
        }
        _ => panic!("not a speed"),
    }
    assert_eq!(
        parts,
        vec![seg(0, 3, "valid"), seg(4, 9, "valid"), seg(10, 11, "valid"), seg(12, 17, "valid")]
    );
    match parsed("set speed = 1h 2s", false).1 {
        Command::SetSpeed { speed } => {
            assert_eq!(speed.as_secs(), 3602);
            assert_eq!(speed.subsec_nanos(), 0);
        }
        _ => panic!("not a speed"),
    }
}

#[test]
fn set_speed_tells_what_is_wrong_with_a_duration() {
    let parts = refused("set speed = fast", false);
    assert_eq!(parts.len(), 4);
    assert_eq!(parts[3].0, 12);
    assert_eq!(parts[3].1, 16);
    assert_eq!(parts[3].2, format!("invalid:{}", humantime::parse_duration("fast").unwrap_err()));
}

#[test]
fn duration_with_too_many_digits_is_refused() {
    let parts = refused("set speed = 18446744073709551615s 1000ms", false);
    assert_eq!(parts.len(), 4);
    assert_eq!(parts[3], seg(12, 40, "invalid:too many digits in a duration"));
    let parts = refused("set speed = 123456789012ns", true);
    assert_eq!(parts[3], seg(12, 26, "invalid:too many digits in a duration"));
    match parsed("set speed = 12345678901ns", false).1 {
        Command::SetSpeed { speed } => {
            assert_eq!(speed.as_secs(), 12);
            assert_eq!(speed.subsec_nanos(), 345_678_901);
        }
        _ => panic!("not a speed"),
    }
    match parsed("set speed = 99999999y 999ms", false).1 {
        Command::SetSpeed { speed } => {
            assert_eq!(speed.as_secs(), 99_999_999 * 31_557_600);
            assert_eq!(speed.subsec_nanos(), 999_000_000);
        }
        _ => panic!("not a speed"),
    }
}

#[test]
fn bounds_cannot_be_set_from_the_line() {
    assert_eq!(
        refused("set bound = 0 255", false),
        vec![
            seg(0, 3, "valid"),
            seg(4, 9, "valid"),
            seg(10, 11, "valid"),
            seg(12, 17, "invalid:setting bounds is not supported"),
        ]
    );
}

#[test]
fn load_takes_the_rest_of_the_line_as_path() {
    let (parts, command) = parsed("load my file.bf", false);
    match command {
        Command::LoadScriptFromFile { path } => assert_eq!(path, "my file.bf"),
        _ => panic!("not a load"),
    }
    assert_eq!(parts, vec![seg(0, 4, "valid"), seg(5, 15, "valid")]);
    let (parts, message) = short("load", false);
    assert_eq!(parts, vec![seg(0, 4, "valid")]);
    assert_eq!(message.as_deref(), Some("expected file name"));
}

#[test]
fn segments_count_bytes_and_unicode_space_divides() {
    let (parts, command) = parsed("set\u{a0}d\u{2003}=\u{3000}5", false);
    assert!(matches!(command, Command::SetData { idx: None, value: 5 }));
    assert_eq!(
        parts,
        vec![seg(0, 3, "valid"), seg(5, 6, "valid"), seg(9, 10, "valid"), seg(13, 14, "valid")]
    );
    assert_eq!(
        refused("sté", false),
        vec![seg(0, 4, "invalid:unrecognised command 'sté'")]
    );
    assert_eq!(
        refused("set ip = aé", false)[3],
        seg(9, 12, "invalid:not a valid number")
    );
}

#[test]
fn segments_are_in_order_and_inside_the_line() {
    let lines = [
        "", "start", " x", "set", "set ip", "set ip =", "set ip = 5", "set ip = 5 6 7",
        "set data(1) = 2 3", "set data 1 = 2", "set nothing here", "set speed = 5s",
        "set speed = no", "load a b c", "set instruction pointer = 1 2", "set bound = 1",
        "set ip x", "nothing at all",
    ];
    for line in lines {
        for autocomplete in [false, true] {
            let parts = match parse_command::<u64>(line, autocomplete) {
                CommandResult::Parsed { parts, .. } => parts,
                CommandResult::CannotContinue { parts } => parts,
                CommandResult::TooShort { parts, .. } => parts,
            };
            let mut previous = 0;
            for part in &parts {
                assert!(previous <= part.start, "{line:?}");
                assert!(part.start <= part.end, "{line:?}");
                assert!(part.end <= line.len(), "{line:?}");
                assert_eq!(part.content(), &line[part.start..part.end]);
                previous = part.end;
            }
        }
    }
}

#[test]
fn command_part_ok_is_the_whole_text() {
    let part = CommandPart::ok("héllo");
    assert_eq!(part.start, 0);
    assert_eq!(part.end, 6);
    assert_eq!(part.len(), 6);
    assert_eq!(part.content(), "héllo");
    assert!(matches!(part.state, CommandPartState::Valid));
    let end = part.empty_at_end();
    assert_eq!((end.start, end.end), (6, 6));
    assert_eq!(end.content(), "");
    assert_eq!(end.len(), 0);
    assert!(matches!(end.state, CommandPartState::Ignored));
}

#[test]
fn trim_start_moves_behind_white_space() {
    let mut part = CommandPart::ok(" \t\u{2028}x y ");
    part.trim_start();
    assert_eq!(part.start, 5);
    assert_eq!(part.content(), "x y ");
    part.trim_start();
    assert_eq!(part.start, 5);
    let mut blank = CommandPart::ok("  \n ");
    blank.trim_start();
    assert_eq!((blank.start, blank.end), (4, 4));
}

#[test]
fn split_whitespace_cuts_at_the_first_white_space() {
    let part = CommandPart::ok("one  two three");
    let (first, second) = part.split_whitespace();
    assert_eq!(first.content(), "one");
    assert!(matches!(first.state, CommandPartState::Valid));
    let second = second.unwrap();
    assert_eq!(second.content(), "two three");
    assert_eq!((second.start, second.end), (5, 14));
    assert!(matches!(second.state, CommandPartState::Ignored));
    let (first, second) = CommandPart::ok("one   ").split_whitespace();
    assert_eq!(first.content(), "one");
    assert!(second.is_none());
    let (first, second) = CommandPart::ok("one").split_whitespace();
    assert_eq!(first.content(), "one");
    assert!(second.is_none());
    let (first, second) = CommandPart::ok("").split_whitespace();
    assert_eq!(first.content(), "");
    assert!(second.is_none());
}

#[test]
fn autocomplete_takes_the_first_fitting_choice() {
    let mut part = CommandPart::ok("DA");
    part.autocomplete_uncased(&["ip", "data pointer", "data"]);
    match &part.state {
        CommandPartState::Autocomplete { suggestion } => assert_eq!(suggestion, "data pointer"),
        _ => panic!("no suggestion"),
    }
    let mut part = CommandPart::ok("x");
    part.autocomplete_uncased(&["ip", "data"]);
    assert!(matches!(part.state, CommandPartState::Valid));
    let mut part = CommandPart::ok("data pointers");
    part.autocomplete_uncased(&["data pointer"]);
    assert!(matches!(part.state, CommandPartState::Valid));
}

#[test]
fn target_variable_names() {
    assert_eq!(TargetVariable::from_str("ip"), Some(TargetVariable::InstructionPointer));
    assert_eq!(
        TargetVariable::from_str("Instruction Pointer"),
        Some(TargetVariable::InstructionPointer)
    );
    assert_eq!(TargetVariable::from_str("DP"), Some(TargetVariable::DataPointer));
    assert_eq!(TargetVariable::from_str("data pointer"), Some(TargetVariable::DataPointer));
    assert_eq!(TargetVariable::from_str("data"), Some(TargetVariable::Data));
    assert_eq!(TargetVariable::from_str("D"), Some(TargetVariable::Data));
    assert_eq!(TargetVariable::from_str("speed"), Some(TargetVariable::Speed));
    assert_eq!(TargetVariable::from_str("bound"), Some(TargetVariable::Bound));
    assert_eq!(TargetVariable::from_str("bounds"), None);
    assert_eq!(TargetVariable::from_str(""), None);
}

#[test]
fn expect_equals_part_tells_the_sign_from_other_tokens() {
    let mut parts = Vec::new();
    let (found, rest) = expect_equals_part(&mut parts, CommandPart::ok("=  5"), false);
    assert!(found);
    assert_eq!(rest.unwrap().content(), "5");
    assert_eq!(describe(&parts), vec![seg(0, 1, "valid")]);
    let (found, rest) = expect_equals_part(&mut parts, CommandPart::ok("is 5"), false);
    assert!(!found);
    assert_eq!(rest.unwrap().content(), "5");
    assert_eq!(describe(&parts)[1], seg(0, 2, "invalid:expected '=', got 'is'"));
}

#[test]
fn parse_number_reads_every_radix() {
    let cases: [(&str, Option<u64>); 22] = [
        ("0", Some(0)),
        ("42", Some(42)),
        ("+42", Some(42)),
        ("0b101", Some(5)),
        ("0B101", Some(5)),
        ("0o17", Some(15)),
        ("0O17", Some(15)),
        ("0x1F", Some(31)),
        ("0Xff", Some(255)),
        ("1fh", Some(31)),
        ("FFH", Some(255)),
        ("bh", Some(11)),
        ("0bh", None),
        ("0b", None),
        ("0x", None),
        ("h", None),
        ("", None),
        ("0b2", None),
        ("0o8", None),
        ("12a", None),
        ("-1", None),
        ("18446744073709551616", None),
    ];
    for (text, expected) in cases {
        let mut part = CommandPart::ok(text);
        let number = parse_number::<u64>(&mut part);
        assert_eq!(number.ok(), expected, "{text:?}");
        match expected {
            Some(_) => assert!(matches!(part.state, CommandPartState::Valid)),
            None => match &part.state {
                CommandPartState::Invalid(Some(reason)) => assert_eq!(reason, "not a valid number"),
                _ => panic!("{text:?} is not marked"),
            },
        }
    }
    let mut part = CommandPart::ok("256");
    assert_eq!(parse_number::<u8>(&mut part), Err(()));
    let mut part = CommandPart::ok("255");
    assert_eq!(parse_number::<u8>(&mut part), Ok(255));
}

#[test]
fn parse_duration_reads_what_humantime_reads() {
    for text in [
        "100ms", "2s", "1h 30m", "0", "", "5", "5 parsecs", "1.5s", "s", "99999999999y",
        "1s 1s 1s 1s 1s 1s 1s 1s 1s 1s 1s", "0.0000000001s", "18446744073ms", "1.",
    ] {
        let mut part = CommandPart::ok(text);
        let read = parse_duration(&mut part);
        match humantime::parse_duration(text) {
            Ok(duration) => {
                let speed = read.unwrap();
                assert_eq!(speed.as_secs(), duration.as_secs());
                assert_eq!(speed.subsec_nanos(), duration.subsec_nanos());
                assert!(matches!(part.state, CommandPartState::Valid));
            }
            Err(error) => {
                assert!(read.is_err());
                match &part.state {
                    CommandPartState::Invalid(Some(reason)) => {
                        assert_eq!(reason, &error.to_string())
                    }
                    _ => panic!("{text:?} is not marked"),
                }
            }
        }
    }
}

#[test]
fn every_line_gets_a_result_with_segments_in_order() {
    let alphabet = [
        "set", "data", "ip", "dp", "speed", "bound", "load", "start", "quit", "instruction",
        "pointer", " ", "  ", "\t", "\u{a0}", "\u{2003}", "=", "(", ")", "0", "5", "0x", "1f",
        "h", "0b", "é", "日", "ms", "s", "-", "+", "d", "x", "S", "D",
    ];
    let mut seed: u64 = 0x2545_f491_4f6c_dd1d;
    for _ in 0..4000 {
        let mut line = String::new();
        seed = seed.wrapping_mul(6364136223846793005).wrapping_add(1442695040888963407);
        let pieces = (seed >> 60) as usize % 9;
        for _ in 0..pieces {
            seed = seed.wrapping_mul(6364136223846793005).wrapping_add(1442695040888963407);
            line.push_str(alphabet[(seed >> 33) as usize % alphabet.len()]);
        }
        for autocomplete in [false, true] {
            let result = parse_command::<u8>(&line, autocomplete);
            let parts = match &result {
                CommandResult::Parsed { parts, .. } => parts,
                CommandResult::CannotContinue { parts } => parts,
                CommandResult::TooShort { parts, .. } => parts,
            };
            if line.is_empty() {
                assert!(matches!(result, CommandResult::TooShort { message: None, .. }));
            } else {
                assert!(!parts.is_empty(), "{line:?}");
            }
            if let CommandResult::Parsed { .. } = &result {
                for part in parts {
                    assert!(
                        matches!(
                            part.state,
                            CommandPartState::Valid | CommandPartState::Ignored
                        ),
                        "{line:?}"
                    );
                }
            }
            let mut previous = 0;
            for part in parts {
                assert!(previous <= part.start && part.start <= part.end, "{line:?}");
                assert!(part.end <= line.len(), "{line:?}");
                assert_eq!(part.content(), &line[part.start..part.end], "{line:?}");
                previous = part.end;
            }
        }
    }
}

#[test]
fn parse_duration_counts_the_digits() {
    let mut part = CommandPart::ok("1s 1s 1s 1s 1s 1s 1s 1s 1s 1s 1s 1s");
    assert!(parse_duration(&mut part).is_err());
    match &part.state {
        CommandPartState::Invalid(Some(reason)) => {
            assert_eq!(reason, "too many digits in a duration")
        }
        _ => panic!("not marked"),
    }
    let mut part = CommandPart::ok("000000000001s");
    assert!(parse_duration(&mut part).is_err());
    let mut part = CommandPart::ok("00000000001s");
    assert_eq!(parse_duration(&mut part).unwrap().as_secs(), 1);
}
