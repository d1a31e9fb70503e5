//! The command line: its segments, the commands it can spell, and the
//! tokenizer that reads one from left to right.

use vstd::prelude::*;
use vstd::string::*;
use vstd::utf8::*;

use crate::interactive::keywords::{
    completes, fold_ascii, same_ignoring_case, uncased_eq, uncased_starts_with,
};
use crate::interactive::segments::{in_order, lemma_parsed_in_order, settled};
use crate::interactive::speed::{read_duration, ClockSpeed};
use crate::interactive::text::{
    boundary, find_token_end, find_whitespace_end, lemma_boundary_is_char_boundary,
    lemma_scans_end_on_boundary, skip_whitespace, slice_str, token_end,
};
use crate::number::radix_value_within;
use crate::runtime::context::CellType;

verus! {

/// How far the tokenizer got with a segment.
pub enum CommandPartState {
    /// The segment is what was expected at its place.
    Valid,
    /// The segment plays no part: white space, or text behind a complete
    /// command.
    Ignored,
    /// The segment is the beginning of `suggestion`.
    Autocomplete { suggestion: String },
    /// The segment is not what was expected, for the reason given.
    Invalid(Option<String>),
}

/// A segment's state as plain values.
pub enum PartStateView {
    Valid,
    Ignored,
    Autocomplete { suggestion: Seq<char> },
    Invalid(Option<Seq<char>>),
}

impl View for CommandPartState {
    type V = PartStateView;

    open spec fn view(&self) -> PartStateView {
        match self {
            CommandPartState::Valid => PartStateView::Valid,
            CommandPartState::Ignored => PartStateView::Ignored,
            CommandPartState::Autocomplete { suggestion } => PartStateView::Autocomplete {
                suggestion: suggestion@,
            },
            CommandPartState::Invalid(Some(reason)) => PartStateView::Invalid(Some(reason@)),
            CommandPartState::Invalid(None) => PartStateView::Invalid(None),
        }
    }
}

impl Clone for CommandPartState {
    fn clone(&self) -> (copy: Self)
        ensures
            copy@ == self@,
    {
        match self {
            CommandPartState::Valid => CommandPartState::Valid,
            CommandPartState::Ignored => CommandPartState::Ignored,
            CommandPartState::Autocomplete { suggestion } => CommandPartState::Autocomplete {
                suggestion: suggestion.clone(),
            },
            CommandPartState::Invalid(Some(reason)) => CommandPartState::Invalid(
                Some(reason.clone()),
            ),
            CommandPartState::Invalid(None) => CommandPartState::Invalid(None),
        }
    }
}

/// A segment of a command line: the bytes `start..end` of the line, and what
/// the tokenizer made of them.
pub struct CommandPart<'a> {
    pub source: &'a str,
    pub start: usize,
    pub end: usize,
    pub state: CommandPartState,
}

/// A segment as plain values.
pub struct PartView {
    pub start: int,
    pub end: int,
    pub state: PartStateView,
}

impl<'a> View for CommandPart<'a> {
    type V = PartView;

    open spec fn view(&self) -> PartView {
        PartView { start: self.start as int, end: self.end as int, state: self.state@ }
    }
}

impl<'a> Clone for CommandPart<'a> {
    fn clone(&self) -> (copy: Self)
        ensures
            copy.source == self.source,
            copy@ == self@,
    {
        Self { source: self.source, start: self.start, end: self.end, state: self.state.clone() }
    }
}

impl<'a> CommandPart<'a> {
    /// The bytes of the line that the segment is cut from.
    pub open spec fn line(&self) -> Seq<u8> {
        self.source.spec_bytes()
    }

    /// The segment lies in its line, and starts and ends between characters.
    pub open spec fn well_formed(&self) -> bool {
        &&& self.start <= self.end <= self.line().len()
        &&& boundary(self.line(), self.start as int)
        &&& boundary(self.line(), self.end as int)
    }

    /// The bytes of the segment.
    pub open spec fn content_bytes(&self) -> Seq<u8> {
        self.line().subrange(self.start as int, self.end as int)
    }

    /// The segment that is the whole of `source`.
    pub fn ok(source: &'a str) -> (part: Self)
        ensures
            part.line() == source.spec_bytes(),
            part.start == 0,
            part.end == source.spec_bytes().len(),
            part.state is Valid,
            part.well_formed(),
    {
        proof {
            encode_utf8_valid_utf8(source@);
            lemma_boundary_is_char_boundary(source.spec_bytes(), 0);
        }
        Self { source, start: 0, end: source.as_bytes().len(), state: CommandPartState::Valid }
    }

    /// The number of bytes in the segment.
    pub fn len(&self) -> (length: usize)
        requires
            self.start <= self.end,
        ensures
            length == self.end - self.start,
    {
        self.end - self.start
    }

    /// The text of the segment.
    pub fn content(&self) -> (text: &'a str)
        requires
            self.well_formed(),
        ensures
            text.spec_bytes() == self.content_bytes(),
            text@ == decode_utf8(self.content_bytes()),
    {
        let text = slice_str(self.source, self.start, self.end);
        proof {
            encode_utf8_decode_utf8(text@);
        }
        text
    }

    /// The empty segment at the end of this one. It plays no part.
    pub fn empty_at_end(&self) -> (part: Self)
        ensures
            part.line() == self.line(),
            part.start == self.end,
            part.end == self.end,
            part.state is Ignored,
            self.well_formed() ==> part.well_formed(),
    {
        Self {
            source: self.source,
            start: self.end,
            end: self.end,
            state: CommandPartState::Ignored,
        }
    }

    /// Moves the start of the segment behind the white space it begins with.
    pub fn trim_start(&mut self)
        requires
            old(self).well_formed(),
        ensures
            final(self).line() == old(self).line(),
            final(self).start == skip_whitespace(
                old(self).line(),
                old(self).start as int,
                old(self).end as int,
            ),
            final(self).end == old(self).end,
            final(self).state == old(self).state,
            final(self).well_formed(),
    {
        proof {
            encode_utf8_valid_utf8(self.source@);
            lemma_scans_end_on_boundary(self.line(), self.start as int, self.end as int);
        }
        self.start = find_whitespace_end(self.source.as_bytes(), self.start, self.end);
    }

    /// Cuts the segment at its first white space. The first half is the
    /// token in front of it; the second half is what follows the white
    /// space, and is there only if something follows.
    pub fn split_whitespace(&self) -> (halves: (Self, Option<Self>))
        requires
            self.well_formed(),
        ensures
            splits(self.line(), self.start as int, self.end as int, halves.0@, halves.1),
            halves.0.line() == self.line(),
            halves.0.well_formed(),
            halves.1 matches Some(rest) ==> rest.line() == self.line() && rest.well_formed(),
    {
        proof {
            encode_utf8_valid_utf8(self.source@);
            lemma_scans_end_on_boundary(self.line(), self.start as int, self.end as int);
        }
        let stop = find_token_end(self.source.as_bytes(), self.start, self.end);
        let first = Self {
            source: self.source,
            start: self.start,
            end: stop,
            state: CommandPartState::Valid,
        };
        if stop < self.end {
            let mut second = Self {
                source: self.source,
                start: stop,
                end: self.end,
                state: CommandPartState::Ignored,
            };
            second.trim_start();
            if second.len() > 0 {
                return (first, Some(second));
            }
        }
        (first, None)
    }
}

/// Where the first token of the bytes `start..end` ends.
pub open spec fn first_stop(line: Seq<u8>, start: int, end: int) -> int {
    token_end(line, start, end)
}

/// Where the rest behind the first token of the bytes `start..end` starts,
/// if anything but white space follows the token.
pub open spec fn rest_start(line: Seq<u8>, start: int, end: int) -> Option<int> {
    let rest = skip_whitespace(line, token_end(line, start, end), end);
    if rest < end {
        Some(rest)
    } else {
        None
    }
}

/// `first` and `rest` are the two halves of the bytes `start..end` of
/// `line`: the first token, which is in order, and what follows the white
/// space behind it, which so far plays no part.
pub open spec fn splits<'a>(
    line: Seq<u8>,
    start: int,
    end: int,
    first: PartView,
    rest: Option<CommandPart<'a>>,
) -> bool {
    &&& first == PartView { start, end: first_stop(line, start, end), state: PartStateView::Valid }
    &&& match rest_start(line, start, end) {
        Some(from) => rest matches Some(part) && part@ == PartView {
            start: from,
            end,
            state: PartStateView::Ignored,
        },
        None => rest is None,
    }
}

/// The variables that `set` can name.
#[derive(Copy, Clone, PartialEq, Eq, Debug, Structural)]
pub enum TargetVariable {
    InstructionPointer,
    DataPointer,
    Data,
    Speed,
    Bound,
}

/// Whether `token` is `word`, but for the case of ASCII letters.
pub open spec fn is_word(token: Seq<u8>, word: &str) -> bool {
    same_ignoring_case(token, word.spec_bytes())
}

/// Whether `token` begins with `word`, but for the case of ASCII letters.
pub open spec fn begins_with(token: Seq<u8>, word: &str) -> bool {
    completes(token, word.spec_bytes())
}

/// The variable that `token` names.
pub open spec fn target_of(token: Seq<u8>) -> Option<TargetVariable> {
    if is_word(token, "instruction pointer") || is_word(token, "ip") {
        Some(TargetVariable::InstructionPointer)
    } else if is_word(token, "data pointer") || is_word(token, "dp") {
        Some(TargetVariable::DataPointer)
    } else if is_word(token, "data") || is_word(token, "d") {
        Some(TargetVariable::Data)
    } else if is_word(token, "speed") {
        Some(TargetVariable::Speed)
    } else if is_word(token, "bound") {
        Some(TargetVariable::Bound)
    } else {
        None
    }
}

impl TargetVariable {
    /// The variable of the given name. Names are compared without regard to
    /// the case of ASCII letters.
    pub fn from_str(s: &str) -> (target: Option<Self>)
        ensures
            target == target_of(s.spec_bytes()),
    {
        if uncased_eq(s, "instruction pointer") || uncased_eq(s, "ip") {
            return Some(Self::InstructionPointer);
        }
        if uncased_eq(s, "data pointer") || uncased_eq(s, "dp") {
            return Some(Self::DataPointer);
        }
        if uncased_eq(s, "data") || uncased_eq(s, "d") {
            return Some(Self::Data);
        }
        if uncased_eq(s, "speed") {
            return Some(Self::Speed);
        }
        if uncased_eq(s, "bound") {
            return Some(Self::Bound);
        }
        None
    }
}

/// The words that a command line can start with, as they are suggested.
pub open spec fn command_words() -> Seq<Seq<char>> {
    seq!["start"@, "pause"@, "set"@, "load"@, "quit"@, "execute"@]
}

/// The names of the variables, as they are suggested.
pub open spec fn variable_words() -> Seq<Seq<char>> {
    seq![
        "instruction pointer"@,
        "ip"@,
        "data pointer"@,
        "dp"@,
        "data"@,
        "d"@,
        "speed"@,
        "bound"@,
    ]
}

/// What is suggested where the equals sign is expected.
pub open spec fn equals_words() -> Seq<Seq<char>> {
    seq!["="@]
}

/// The texts of a list of words.
pub open spec fn word_list(choices: Seq<&str>) -> Seq<Seq<char>> {
    choices.map_values(|choice: &str| choice@)
}

/// The first of `choices` that `typed` is a beginning of.
pub open spec fn first_completion(choices: Seq<Seq<char>>, typed: Seq<u8>) -> Option<Seq<char>>
    decreases choices.len(),
{
    if choices.len() == 0 {
        None
    } else if completes(encode_utf8(choices[0]), typed) {
        Some(choices[0])
    } else {
        first_completion(choices.drop_first(), typed)
    }
}

/// The state of a token that is not what was expected: the suggestion found
/// for it where suggestions are asked for, or else the reason given.
pub open spec fn rejected(
    token: Seq<u8>,
    reason: Seq<char>,
    choices: Seq<Seq<char>>,
    autocomplete: bool,
) -> PartStateView {
    if autocomplete && first_completion(choices, token) is Some {
        PartStateView::Autocomplete { suggestion: first_completion(choices, token)->0 }
    } else {
        PartStateView::Invalid(Some(reason))
    }
}

/// `prefix`, then the text of `token`, then a closing quote.
pub open spec fn quoted(prefix: &str, token: Seq<u8>) -> Seq<char> {
    prefix@ + decode_utf8(token) + "'"@
}

/// The number that `token` spells within `limit`: binary behind `0b`, octal
/// behind `0o`, hexadecimal behind `0x` or in front of a final `h`, and
/// decimal otherwise. The letters of prefix and suffix may be capitals.
pub open spec fn number_value(token: Seq<u8>, limit: nat) -> Option<nat> {
    if begins_with(token, "0b") {
        radix_value_within(token.skip(2), 2, limit)
    } else if begins_with(token, "0o") {
        radix_value_within(token.skip(2), 8, limit)
    } else if begins_with(token, "0x") {
        radix_value_within(token.skip(2), 16, limit)
    } else if token.len() > 0 && fold_ascii(token.last()) == 0x68 {
        radix_value_within(token.drop_last(), 16, limit)
    } else {
        radix_value_within(token, 10, limit)
    }
}

/// Whether `token` is the equals sign.
pub open spec fn is_equals(token: Seq<u8>) -> bool {
    token.len() == 1 && token[0] == 0x3d
}

/// Whether `token` has the form `data(..)`.
pub open spec fn is_indexed_data(token: Seq<u8>) -> bool {
    begins_with(token, "data(") && token.len() >= 6 && token.last() == 0x29
}

/// A command that the operator can give.
#[allow(inconsistent_fields)]
pub enum Command<T: CellType> {
    Start,
    Pause,
    SetInstructionPointer { idx: usize },
    SetDataPointer { idx: usize },
    SetData { idx: Option<usize>, value: T },
    SetSpeed { speed: ClockSpeed },
    SetBounds { lower: T, upper: T },
    LoadScriptFromFile { path: String },
    Quit,
}

/// A command as plain values.
#[allow(inconsistent_fields)]
pub enum CommandView {
    Start,
    Pause,
    SetInstructionPointer { idx: nat },
    SetDataPointer { idx: nat },
    SetData { idx: Option<nat>, value: nat },
    SetSpeed { nanos: nat },
    SetBounds { lower: nat, upper: nat },
    LoadScriptFromFile { path: Seq<char> },
    Quit,
}

impl<T: CellType> View for Command<T> {
    type V = CommandView;

    open spec fn view(&self) -> CommandView {
        match self {
            Command::Start => CommandView::Start,
            Command::Pause => CommandView::Pause,
            Command::SetInstructionPointer { idx } => CommandView::SetInstructionPointer {
                idx: *idx as nat,
            },
            Command::SetDataPointer { idx } => CommandView::SetDataPointer { idx: *idx as nat },
            Command::SetData { idx, value } => CommandView::SetData {
                idx: match idx {
                    Some(at) => Some(*at as nat),
                    None => None,
                },
                value: value.value(),
            },
            Command::SetSpeed { speed } => CommandView::SetSpeed { nanos: speed.total_nanos() },
            Command::SetBounds { lower, upper } => CommandView::SetBounds {
                lower: lower.value(),
                upper: upper.value(),
            },
            Command::LoadScriptFromFile { path } => CommandView::LoadScriptFromFile { path: path@ },
            Command::Quit => CommandView::Quit,
        }
    }
}

impl<T: CellType> Clone for Command<T> {
    fn clone(&self) -> (copy: Self)
        ensures
            copy@ == self@,
    {
        match self {
            Command::Start => Command::Start,
            Command::Pause => Command::Pause,
            Command::SetInstructionPointer { idx } => Command::SetInstructionPointer { idx: *idx },
            Command::SetDataPointer { idx } => Command::SetDataPointer { idx: *idx },
            Command::SetData { idx, value } => Command::SetData { idx: *idx, value: *value },
            Command::SetSpeed { speed } => Command::SetSpeed { speed: *speed },
            Command::SetBounds { lower, upper } => Command::SetBounds {
                lower: *lower,
                upper: *upper,
            },
            Command::LoadScriptFromFile { path } => Command::LoadScriptFromFile {
                path: path.clone(),
            },
            Command::Quit => Command::Quit,
        }
    }
}

/// What the tokenizer made of a command line.
pub enum CommandResult<'a, T: CellType> {
    /// Every segment that the command needs was found.
    Parsed { parts: Vec<CommandPart<'a>>, command: Command<T> },
    /// A segment is not what was expected at its place; typing on will not
    /// mend it.
    CannotContinue { parts: Vec<CommandPart<'a>> },
    /// The line ended before the command was complete; `message` says what
    /// is expected next.
    TooShort { parts: Vec<CommandPart<'a>>, message: Option<&'a str> },
}

/// The tokenizer's result as plain values.
pub enum ResultView {
    Parsed { parts: Seq<PartView>, command: CommandView },
    CannotContinue { parts: Seq<PartView> },
    TooShort { parts: Seq<PartView>, message: Option<Seq<char>> },
}

/// The segments as plain values.
pub open spec fn views<'a>(parts: Seq<CommandPart<'a>>) -> Seq<PartView> {
    parts.map_values(|part: CommandPart<'a>| part@)
}

/// Every segment is a well-formed segment of `line`.
pub open spec fn cut_from<'a>(parts: Seq<CommandPart<'a>>, line: Seq<u8>) -> bool {
    forall|i: int|
        0 <= i < parts.len() ==> (#[trigger] parts[i]).line() == line && parts[i].well_formed()
}

/// A copy of a row of segments.
fn clone_parts<'a>(parts: &Vec<CommandPart<'a>>) -> (copy: Vec<CommandPart<'a>>)
    ensures
        views(copy@) == views(parts@),
        copy@.len() == parts@.len(),
        forall|i: int| 0 <= i < parts@.len() ==> (#[trigger] copy@[i]).source == parts@[i].source,
{
    let mut copy: Vec<CommandPart<'a>> = Vec::new();
    let mut i: usize = 0;
    while i < parts.len()
        invariant
            i <= parts@.len(),
            copy@.len() == i,
            forall|j: int| 0 <= j < i ==> (#[trigger] copy@[j])@ == parts@[j]@,
            forall|j: int| 0 <= j < i ==> (#[trigger] copy@[j]).source == parts@[j].source,
        decreases parts.len() - i,
    {
        copy.push(parts[i].clone());
        i += 1;
    }
    assert(views(copy@) =~= views(parts@));
    copy
}

impl<'a, T: CellType> Clone for CommandResult<'a, T> {
    fn clone(&self) -> (copy: Self)
        ensures
            copy@ == self@,
    {
        match self {
            CommandResult::Parsed { parts, command } => CommandResult::Parsed {
                parts: clone_parts(parts),
                command: command.clone(),
            },
            CommandResult::CannotContinue { parts } => CommandResult::CannotContinue {
                parts: clone_parts(parts),
            },
            CommandResult::TooShort { parts, message } => CommandResult::TooShort {
                parts: clone_parts(parts),
                message: *message,
            },
        }
    }
}

impl<'a, T: CellType> CommandResult<'a, T> {
    /// The segments of the result.
    pub open spec fn parts(&self) -> Seq<CommandPart<'a>> {
        match self {
            CommandResult::Parsed { parts, .. } => parts@,
            CommandResult::CannotContinue { parts } => parts@,
            CommandResult::TooShort { parts, .. } => parts@,
        }
    }
}

impl<'a, T: CellType> View for CommandResult<'a, T> {
    type V = ResultView;

    open spec fn view(&self) -> ResultView {
        match self {
            CommandResult::Parsed { parts, command } => ResultView::Parsed {
                parts: views(parts@),
                command: command@,
            },
            CommandResult::CannotContinue { parts } => ResultView::CannotContinue {
                parts: views(parts@),
            },
            CommandResult::TooShort { parts, message } => ResultView::TooShort {
                parts: views(parts@),
                message: match message {
                    Some(text) => Some(text@),
                    None => None,
                },
            },
        }
    }
}

/// The bytes of the words that numbers and indexed variables are told by.
proof fn lemma_marker_bytes()
    ensures
        "0b".spec_bytes() =~= seq![0x30u8, 0x62u8],
        "0o".spec_bytes() =~= seq![0x30u8, 0x6fu8],
        "0x".spec_bytes() =~= seq![0x30u8, 0x78u8],
        "h".spec_bytes() =~= seq![0x68u8],
        "data(".spec_bytes() =~= seq![0x64u8, 0x61u8, 0x74u8, 0x61u8, 0x28u8],
{
    reveal_strlit("0b");
    reveal_strlit("0o");
    reveal_strlit("0x");
    reveal_strlit("h");
    reveal_strlit("data(");
    is_ascii_spec_bytes("0b");
    is_ascii_spec_bytes("0o");
    is_ascii_spec_bytes("0x");
    is_ascii_spec_bytes("h");
    is_ascii_spec_bytes("data(");
}

impl<'a> CommandPart<'a> {
    /// Turns the segment into a suggestion of the first of `choices` that it
    /// is a beginning of. Without such a choice the segment stays as it is.
    pub fn autocomplete_uncased(&mut self, choices: &[&'a str])
        requires
            old(self).well_formed(),
        ensures
            final(self).source == old(self).source,
            final(self).start == old(self).start,
            final(self).end == old(self).end,
            final(self).state@ == match first_completion(
                word_list(choices@),
                old(self).content_bytes(),
            ) {
                Some(suggestion) => PartStateView::Autocomplete { suggestion },
                None => old(self).state@,
            },
    {
        let typed = self.content();
        let ghost words = word_list(choices@);
        assert(words.skip(0) =~= words);
        let mut i: usize = 0;
        while i < choices.len()
            invariant
                i <= choices@.len(),
                self.source == old(self).source,
                self.start == old(self).start,
                self.end == old(self).end,
                self.state == old(self).state,
                words == word_list(choices@),
                typed.spec_bytes() == old(self).content_bytes(),
                first_completion(words, typed.spec_bytes()) == first_completion(
                    words.skip(i as int),
                    typed.spec_bytes(),
                ),
            decreases choices.len() - i,
        {
            let choice = choices[i];
            proof {
                let rest = words.skip(i as int);
                assert(rest[0] == choice@);
                assert(rest.drop_first() =~= words.skip(i + 1));
            }
            if uncased_starts_with(choice, typed) {
                self.state = CommandPartState::Autocomplete { suggestion: choice.to_owned() };
                return;
            }
            i += 1;
        }
    }
}

/// Marks `part` as not being what was expected. The reason is `prefix`
/// followed by the segment's text and a closing quote; where suggestions are
/// asked for and one of `choices` fits, the suggestion takes its place.
fn reject<'a>(part: &mut CommandPart<'a>, prefix: &str, choices: &[&'a str], autocomplete: bool)
    requires
        old(part).well_formed(),
    ensures
        final(part).source == old(part).source,
        final(part).start == old(part).start,
        final(part).end == old(part).end,
        final(part).state@ == rejected(
            old(part).content_bytes(),
            quoted(prefix, old(part).content_bytes()),
            word_list(choices@),
            autocomplete,
        ),
{
    let mut reason = String::from_str(prefix);
    reason.append(part.content());
    reason.append("'");
    part.state = CommandPartState::Invalid(Some(reason));
    if autocomplete {
        part.autocomplete_uncased(choices);
    }
}

/// Reads the number that the segment spells. A segment that spells none is
/// marked as invalid.
pub fn parse_number<T: CellType>(current: &mut CommandPart<'_>) -> (number: Result<T, ()>)
    requires
        old(current).well_formed(),
    ensures
        final(current).source == old(current).source,
        final(current).start == old(current).start,
        final(current).end == old(current).end,
        match number_value(old(current).content_bytes(), T::top()) {
            Some(value) => number matches Ok(cell) && cell.value() == value && final(current).state
                == old(current).state,
            None => number is Err && final(current).state@ == PartStateView::Invalid(
                Some("not a valid number"@),
            ),
        },
{
    let text = current.content();
    let length = text.as_bytes().len();
    let ghost bytes = text.spec_bytes();
    proof {
        lemma_marker_bytes();
        encode_utf8_valid_utf8(text@);
        if length >= 2 {
            lemma_boundary_is_char_boundary(bytes, 2);
        }
        lemma_boundary_is_char_boundary(bytes, length as int);
        if length > 0 {
            lemma_boundary_is_char_boundary(bytes, length - 1);
        }
    }
    let result = if uncased_starts_with(text, "0b") {
        assert(bytes.skip(2) =~= bytes.subrange(2, length as int));
        T::from_str_radix(slice_str(text, 2, length), 2)
    } else if uncased_starts_with(text, "0o") {
        assert(bytes.skip(2) =~= bytes.subrange(2, length as int));
        T::from_str_radix(slice_str(text, 2, length), 8)
    } else if uncased_starts_with(text, "0x") {
        assert(bytes.skip(2) =~= bytes.subrange(2, length as int));
        T::from_str_radix(slice_str(text, 2, length), 16)
    } else if length > 0 && text.is_char_boundary(length - 1) && uncased_eq(
        slice_str(text, length - 1, length),
        "h",
    ) {
        assert(bytes.drop_last() =~= bytes.subrange(0, length - 1));
        assert(bytes.subrange(length - 1, length as int)[0] == bytes.last());
        T::from_str_radix(slice_str(text, 0, length - 1), 16)
    } else {
        proof {
            if length > 0 && boundary(bytes, length - 1) {
                assert(bytes.subrange(length - 1, length as int)[0] == bytes.last());
                assert(seq![0x68u8][0] == 0x68u8);
            }
            assert(bytes.subrange(0, length as int) =~= bytes);
        }
        T::from_str_radix(slice_str(text, 0, length), 10)
    };
    if result.is_err() {
        current.state = CommandPartState::Invalid(Some(String::from_str("not a valid number")));
    }
    result
}

/// Reads the duration that the segment spells. A segment that spells none is
/// marked as invalid, with the reason that the reader of durations gives.
/// More digits than a duration may hold are such a reason.
pub fn parse_duration(current: &mut CommandPart<'_>) -> (duration: Result<ClockSpeed, ()>)
    requires
        old(current).well_formed(),
    ensures
        final(current).source == old(current).source,
        final(current).start == old(current).start,
        final(current).end == old(current).end,
        match read_duration(old(current).content_bytes()) {
            Ok(nanos) => {
                &&& duration matches Ok(speed)
                &&& speed.total_nanos() == nanos
                &&& final(current).state == old(current).state
            },
            Err(reason) => duration is Err && final(current).state@ == PartStateView::Invalid(
                Some(reason),
            ),
        },
{
    match ClockSpeed::read(current.content()) {
        Ok(speed) => Ok(speed),
        Err(reason) => {
            current.state = CommandPartState::Invalid(Some(reason));
            Err(())
        },
    }
}

/// Where the segment starts, if there is one.
pub open spec fn start_of<'a>(rest: Option<CommandPart<'a>>) -> Option<int> {
    match rest {
        Some(part) => Some(part.start as int),
        None => None,
    }
}

/// `rest`, if there is one, is the well-formed segment of `line` that goes
/// on to the end of the line.
pub open spec fn reaches_end<'a>(rest: Option<CommandPart<'a>>, line: Seq<u8>) -> bool {
    rest matches Some(part) ==> part.line() == line && part.well_formed() && part.end
        == line.len()
}

/// Takes the first token of `remaining`, which should be the equals sign,
/// and adds it to `parts`: in order if it is the sign, marked as not expected
/// if it is not. Returns whether it was the sign, and what follows it.
pub fn expect_equals_part<'a>(
    parts: &mut Vec<CommandPart<'a>>,
    remaining: CommandPart<'a>,
    autocomplete: bool,
) -> (found: (bool, Option<CommandPart<'a>>))
    requires
        remaining.well_formed(),
    ensures
        ({
            let line = remaining.line();
            let from = remaining.start as int;
            let end = remaining.end as int;
            let stop = first_stop(line, from, end);
            let token = line.subrange(from, stop);
            &&& found.0 == is_equals(token)
            &&& start_of(found.1) == rest_start(line, from, end)
            &&& found.1 matches Some(rest) ==> rest.line() == line && rest.well_formed() && rest.end
                == end && rest.state is Ignored
            &&& final(parts)@.len() == old(parts)@.len() + 1
            &&& final(parts)@.drop_last() == old(parts)@
            &&& final(parts)@.last().line() == line
            &&& final(parts)@.last().well_formed()
            &&& final(parts)@.last()@ == PartView {
                start: from,
                end: stop,
                state: if is_equals(token) {
                    PartStateView::Valid
                } else {
                    rejected(token, quoted("expected '=', got '", token), equals_words(), autocomplete)
                },
            }
        }),
{
    let (mut equals_part, rest) = remaining.split_whitespace();
    let text = equals_part.content().as_bytes();
    let found = text.len() == 1 && text[0] == 0x3d;
    if !found {
        let choices: [&'static str; 1] = ["="];
        assert(word_list(choices@) =~= equals_words());
        reject(&mut equals_part, "expected '=', got '", choices.as_slice(), autocomplete);
    }
    parts.push(equals_part);
    assert(parts@.drop_last() =~= old(parts)@);
    (found, rest)
}

/// A segment from plain values.
pub open spec fn part_view(start: int, end: int, state: PartStateView) -> PartView {
    PartView { start, end, state }
}

/// The segment for what is left of the line from `rest` on, behind a
/// command that is already complete or already refused: it plays no part.
pub open spec fn trailing(rest: Option<int>, end: int) -> Seq<PartView> {
    match rest {
        Some(from) => seq![part_view(from, end, PartStateView::Ignored)],
        None => Seq::empty(),
    }
}

/// An index as a plain value.
pub open spec fn index_view(idx: Option<usize>) -> Option<nat> {
    match idx {
        Some(at) => Some(at as nat),
        None => None,
    }
}

/// The command that gives `value` to the variable `target`; `idx` is the
/// address of the cell where the variable is the data.
pub open spec fn set_command(target: TargetVariable, idx: Option<nat>, value: nat) -> CommandView {
    match target {
        TargetVariable::InstructionPointer => CommandView::SetInstructionPointer { idx: value },
        TargetVariable::DataPointer => CommandView::SetDataPointer { idx: value },
        _ => CommandView::SetData { idx, value },
    }
}

/// The largest value that the variable `target` takes, where cells hold
/// numbers up to `top`.
pub open spec fn value_limit(target: TargetVariable, top: nat) -> nat {
    match target {
        TargetVariable::Data => top,
        _ => usize::MAX as nat,
    }
}

/// What the tokenizer makes of the value of a `set` command. The segments
/// `parts` are read already; the value starts at `rest`.
///
/// A number is one token, and what follows it plays no part. A duration is
/// all that is left of the line, and may hold eleven digits at most. The
/// bounds cannot be set from the command line.
pub open spec fn parsed_value(
    line: Seq<u8>,
    target: TargetVariable,
    idx: Option<nat>,
    parts: Seq<PartView>,
    rest: Option<int>,
    top: nat,
) -> ResultView {
    let end = line.len() as int;
    match rest {
        None => ResultView::TooShort { parts, message: Some("expecting value"@) },
        Some(from) => match target {
            TargetVariable::Speed => match read_duration(line.subrange(from, end)) {
                Ok(nanos) => ResultView::Parsed {
                    parts: parts.push(part_view(from, end, PartStateView::Valid)),
                    command: CommandView::SetSpeed { nanos },
                },
                Err(reason) => ResultView::CannotContinue {
                    parts: parts.push(part_view(from, end, PartStateView::Invalid(Some(reason)))),
                },
            },
            TargetVariable::Bound => ResultView::CannotContinue {
                parts: parts.push(
                    part_view(
                        from,
                        end,
                        PartStateView::Invalid(Some("setting bounds is not supported"@)),
                    ),
                ),
            },
            _ => {
                let stop = first_stop(line, from, end);
                let after = trailing(rest_start(line, from, end), end);
                match number_value(line.subrange(from, stop), value_limit(target, top)) {
                    Some(value) => ResultView::Parsed {
                        parts: parts.push(part_view(from, stop, PartStateView::Valid)) + after,
                        command: set_command(target, idx, value),
                    },
                    None => ResultView::CannotContinue {
                        parts: parts.push(
                            part_view(
                                from,
                                stop,
                                PartStateView::Invalid(Some("not a valid number"@)),
                            ),
                        ) + after,
                    },
                }
            },
        },
    }
}

/// What the tokenizer makes of the equals sign of a `set` command and of
/// what follows it. The segments `parts` are read already; the sign is
/// expected at `rest`.
pub open spec fn parsed_equals(
    line: Seq<u8>,
    autocomplete: bool,
    target: TargetVariable,
    idx: Option<nat>,
    parts: Seq<PartView>,
    rest: Option<int>,
    top: nat,
) -> ResultView {
    let end = line.len() as int;
    match rest {
        None => ResultView::TooShort { parts, message: Some("expecting ="@) },
        Some(from) => {
            let stop = first_stop(line, from, end);
            let token = line.subrange(from, stop);
            if is_equals(token) {
                parsed_value(
                    line,
                    target,
                    idx,
                    parts.push(part_view(from, stop, PartStateView::Valid)),
                    rest_start(line, from, end),
                    top,
                )
            } else {
                ResultView::CannotContinue {
                    parts: parts.push(
                        part_view(
                            from,
                            stop,
                            rejected(
                                token,
                                quoted("expected '=', got '", token),
                                equals_words(),
                                autocomplete,
                            ),
                        ),
                    ),
                }
            }
        },
    }
}

/// What the tokenizer makes of what follows the variable `data`: the equals
/// sign and the value, or the address of a cell in front of them.
pub open spec fn parsed_data(
    line: Seq<u8>,
    autocomplete: bool,
    parts: Seq<PartView>,
    rest: Option<int>,
    top: nat,
) -> ResultView {
    let end = line.len() as int;
    match rest {
        None => ResultView::TooShort { parts, message: Some("expecting index or ="@) },
        Some(from) => {
            let stop = first_stop(line, from, end);
            let token = line.subrange(from, stop);
            let after = rest_start(line, from, end);
            if is_equals(token) {
                parsed_value(
                    line,
                    TargetVariable::Data,
                    None,
                    parts.push(part_view(from, stop, PartStateView::Valid)),
                    after,
                    top,
                )
            } else {
                match number_value(token, usize::MAX as nat) {
                    Some(index) => parsed_equals(
                        line,
                        autocomplete,
                        TargetVariable::Data,
                        Some(index),
                        parts.push(part_view(from, stop, PartStateView::Valid)),
                        after,
                        top,
                    ),
                    None => ResultView::CannotContinue {
                        parts: parts.push(
                            part_view(
                                from,
                                stop,
                                PartStateView::Invalid(Some("not a valid number"@)),
                            ),
                        ),
                    },
                }
            }
        },
    }
}

/// Whether `token` and the token at `after` spell one of the variables
/// whose name has two words: `instruction pointer` or `data pointer`.
pub open spec fn names_pointer(line: Seq<u8>, token: Seq<u8>, after: Option<int>) -> bool {
    let end = line.len() as int;
    &&& is_word(token, "instruction") || is_word(token, "data")
    &&& after matches Some(second)
    &&& is_word(line.subrange(second, first_stop(line, second, end)), "pointer")
}

/// What the tokenizer makes of a variable that is written `data(..)` with
/// the address of a cell between the brackets. The segments `parts` are
/// read already; the variable is the token at `from`.
pub open spec fn parsed_indexed(
    line: Seq<u8>,
    autocomplete: bool,
    parts: Seq<PartView>,
    from: int,
    top: nat,
) -> ResultView {
    let end = line.len() as int;
    let stop = first_stop(line, from, end);
    let token = line.subrange(from, stop);
    match number_value(token.subrange(5, token.len() - 1), usize::MAX as nat) {
        Some(index) => parsed_equals(
            line,
            autocomplete,
            TargetVariable::Data,
            Some(index),
            parts.push(part_view(from, stop, PartStateView::Valid)),
            rest_start(line, from, end),
            top,
        ),
        None => ResultView::CannotContinue {
            parts: parts.push(
                part_view(from, stop, PartStateView::Invalid(Some("not a valid number"@))),
            ),
        },
    }
}

/// What the tokenizer makes of a variable whose name is one word, and of
/// what follows it. The segments `parts` are read already; the variable is
/// the token at `from`.
pub open spec fn parsed_named(
    line: Seq<u8>,
    autocomplete: bool,
    parts: Seq<PartView>,
    from: int,
    top: nat,
) -> ResultView {
    let end = line.len() as int;
    let stop = first_stop(line, from, end);
    let token = line.subrange(from, stop);
    let after = rest_start(line, from, end);
    let named = parts.push(part_view(from, stop, PartStateView::Valid));
    match target_of(token) {
        None => ResultView::CannotContinue {
            parts: parts.push(
                part_view(
                    from,
                    stop,
                    rejected(
                        token,
                        quoted("unknown variable '", token),
                        variable_words(),
                        autocomplete,
                    ),
                ),
            ) + trailing(after, end),
        },
        Some(TargetVariable::Data) => parsed_data(line, autocomplete, named, after, top),
        Some(target) => parsed_equals(line, autocomplete, target, None, named, after, top),
    }
}

/// What the tokenizer makes of a variable whose name has two words, and of
/// what follows it. The segments `parts` are read already; the first word
/// is the token at `from`.
pub open spec fn parsed_pointer(
    line: Seq<u8>,
    autocomplete: bool,
    parts: Seq<PartView>,
    from: int,
    top: nat,
) -> ResultView {
    let end = line.len() as int;
    let stop = first_stop(line, from, end);
    let second = rest_start(line, from, end)->0;
    parsed_equals(
        line,
        autocomplete,
        if is_word(line.subrange(from, stop), "instruction") {
            TargetVariable::InstructionPointer
        } else {
            TargetVariable::DataPointer
        },
        None,
        parts.push(part_view(from, stop, PartStateView::Valid)).push(
            part_view(second, first_stop(line, second, end), PartStateView::Valid),
        ),
        rest_start(line, second, end),
        top,
    )
}

/// What the tokenizer makes of what follows the word `set`. The segments
/// `parts` are read already; the variable's name is expected at `rest`.
pub open spec fn parsed_set(
    line: Seq<u8>,
    autocomplete: bool,
    parts: Seq<PartView>,
    rest: Option<int>,
    top: nat,
) -> ResultView {
    let end = line.len() as int;
    match rest {
        None => ResultView::TooShort { parts, message: Some("variable name required"@) },
        Some(from) => {
            let token = line.subrange(from, first_stop(line, from, end));
            if is_indexed_data(token) {
                parsed_indexed(line, autocomplete, parts, from, top)
            } else if names_pointer(line, token, rest_start(line, from, end)) {
                parsed_pointer(line, autocomplete, parts, from, top)
            } else {
                parsed_named(line, autocomplete, parts, from, top)
            }
        },
    }
}

/// What the tokenizer makes of the command line `line`, with suggestions
/// where `autocomplete` asks for them, for a machine whose cells hold
/// numbers up to `top`.
///
/// The grammar, in tokens divided by white space, words in either case:
///
/// ```text
/// command := "start" | "pause" | "quit"
///          | "set" target "=" value
///          | "load" path
/// target  := "instruction pointer" | "ip" | "data pointer" | "dp"
///          | "data" | "data(" index ")" | "data" index | "d"
///          | "speed" | "bound"
/// ```
///
/// The path of `load` and the duration of `set speed` are all that is left
/// of the line; whatever follows another complete command plays no part.
pub open spec fn parsed(line: Seq<u8>, autocomplete: bool, top: nat) -> ResultView {
    let end = line.len() as int;
    let stop = first_stop(line, 0, end);
    let token = line.subrange(0, stop);
    let rest = rest_start(line, 0, end);
    let word = seq![part_view(0, stop, PartStateView::Valid)];
    if end == 0 {
        ResultView::TooShort { parts: Seq::empty(), message: None }
    } else if is_word(token, "start") {
        ResultView::Parsed { parts: word, command: CommandView::Start }
    } else if is_word(token, "pause") {
        ResultView::Parsed { parts: word, command: CommandView::Pause }
    } else if is_word(token, "set") {
        parsed_set(line, autocomplete, word, rest, top)
    } else if is_word(token, "load") {
        match rest {
            None => ResultView::TooShort { parts: word, message: Some("expected file name"@) },
            Some(from) => ResultView::Parsed {
                parts: word.push(part_view(from, end, PartStateView::Valid)),
                command: CommandView::LoadScriptFromFile {
                    path: decode_utf8(line.subrange(from, end)),
                },
            },
        }
    } else if is_word(token, "quit") {
        ResultView::Parsed { parts: word, command: CommandView::Quit }
    } else {
        ResultView::CannotContinue {
            parts: seq![
                part_view(
                    0,
                    stop,
                    rejected(
                        token,
                        quoted("unrecognised command '", token),
                        command_words(),
                        autocomplete,
                    ),
                ),
            ],
        }
    }
}

/// The plain values of a row of segments that has grown by one.
proof fn lemma_views_push<'a>(parts: Seq<CommandPart<'a>>, part: CommandPart<'a>)
    ensures
        views(parts.push(part)) == views(parts).push(part@),
{
    assert(views(parts.push(part)) =~= views(parts).push(part@));
}

/// Adds the segment `part` to `parts`.
fn push_part<'a>(parts: &mut Vec<CommandPart<'a>>, part: CommandPart<'a>, Ghost(line): Ghost<Seq<u8>>)
    requires
        cut_from(old(parts)@, line),
        part.line() == line,
        part.well_formed(),
    ensures
        final(parts)@ == old(parts)@.push(part),
        views(final(parts)@) == views(old(parts)@).push(part@),
        cut_from(final(parts)@, line),
{
    proof {
        lemma_views_push(parts@, part);
    }
    parts.push(part);
}

/// Adds what is left of the line to `parts`, if anything is left.
fn push_rest<'a>(
    parts: &mut Vec<CommandPart<'a>>,
    rest: Option<CommandPart<'a>>,
    Ghost(line): Ghost<Seq<u8>>,
)
    requires
        cut_from(old(parts)@, line),
        reaches_end(rest, line),
        rest matches Some(part) ==> part.state is Ignored,
    ensures
        views(final(parts)@) == views(old(parts)@) + trailing(start_of(rest), line.len() as int),
        cut_from(final(parts)@, line),
{
    match rest {
        Some(part) => {
            assert(views(parts@).push(part@) =~= views(parts@) + trailing(
                start_of(rest),
                line.len() as int,
            ));
            push_part(parts, part, Ghost(line));
        },
        None => {
            assert(views(parts@) =~= views(parts@) + trailing(start_of(rest), line.len() as int));
        },
    }
}

/// Reads the value of a `set` command.
fn parse_value<'a, T: CellType>(
    Ghost(line): Ghost<Seq<u8>>,
    target: TargetVariable,
    idx: Option<usize>,
    parts: Vec<CommandPart<'a>>,
    remaining: Option<CommandPart<'a>>,
) -> (result: CommandResult<'a, T>)
    requires
        cut_from(parts@, line),
        reaches_end(remaining, line),
    ensures
        result@ == parsed_value(
            line,
            target,
            index_view(idx),
            views(parts@),
            start_of(remaining),
            T::top(),
        ),
        cut_from(result.parts(), line),
{
    let mut parts = parts;
    let Some(remaining) = remaining else {
        return CommandResult::TooShort { parts, message: Some("expecting value") };
    };
    let mut remaining = remaining;
    if target == TargetVariable::Speed {
        remaining.state = CommandPartState::Valid;
        match parse_duration(&mut remaining) {
            Ok(speed) => {
                push_part(&mut parts, remaining, Ghost(line));
                CommandResult::Parsed { parts, command: Command::SetSpeed { speed } }
            },
            Err(_) => {
                push_part(&mut parts, remaining, Ghost(line));
                CommandResult::CannotContinue { parts }
            },
        }
    } else if target == TargetVariable::Bound {
        remaining.state = CommandPartState::Invalid(
            Some(String::from_str("setting bounds is not supported")),
        );
        push_part(&mut parts, remaining, Ghost(line));
        CommandResult::CannotContinue { parts }
    } else if target == TargetVariable::Data {
        let (mut value_part, rest) = remaining.split_whitespace();
        match parse_number::<T>(&mut value_part) {
            Ok(value) => {
                push_part(&mut parts, value_part, Ghost(line));
                push_rest(&mut parts, rest, Ghost(line));
                CommandResult::Parsed { parts, command: Command::SetData { idx, value } }
            },
            Err(_) => {
                push_part(&mut parts, value_part, Ghost(line));
                push_rest(&mut parts, rest, Ghost(line));
                CommandResult::CannotContinue { parts }
            },
        }
    } else {
        let (mut value_part, rest) = remaining.split_whitespace();
        match parse_number::<usize>(&mut value_part) {
            Ok(value) => {
                push_part(&mut parts, value_part, Ghost(line));
                push_rest(&mut parts, rest, Ghost(line));
                let command = if target == TargetVariable::InstructionPointer {
                    Command::SetInstructionPointer { idx: value }
                } else {
                    Command::SetDataPointer { idx: value }
                };
                CommandResult::Parsed { parts, command }
            },
            Err(_) => {
                push_part(&mut parts, value_part, Ghost(line));
                push_rest(&mut parts, rest, Ghost(line));
                CommandResult::CannotContinue { parts }
            },
        }
    }
}

/// Reads the equals sign of a `set` command and the value behind it.
fn parse_equals<'a, T: CellType>(
    Ghost(line): Ghost<Seq<u8>>,
    autocomplete: bool,
    target: TargetVariable,
    idx: Option<usize>,
    parts: Vec<CommandPart<'a>>,
    remaining: Option<CommandPart<'a>>,
) -> (result: CommandResult<'a, T>)
    requires
        cut_from(parts@, line),
        reaches_end(remaining, line),
    ensures
        result@ == parsed_equals(
            line,
            autocomplete,
            target,
            index_view(idx),
            views(parts@),
            start_of(remaining),
            T::top(),
        ),
        cut_from(result.parts(), line),
{
    let mut parts = parts;
    let Some(remaining) = remaining else {
        return CommandResult::TooShort { parts, message: Some("expecting =") };
    };
    let ghost before = parts@;
    let (found, rest) = expect_equals_part(&mut parts, remaining, autocomplete);
    proof {
        assert(parts@ =~= before.push(parts@.last()));
        lemma_views_push(before, parts@.last());
    }
    if !found {
        return CommandResult::CannotContinue { parts };
    }
    parse_value(Ghost(line), target, idx, parts, rest)
}

/// Reads what follows the variable `data`.
fn parse_data<'a, T: CellType>(
    Ghost(line): Ghost<Seq<u8>>,
    autocomplete: bool,
    parts: Vec<CommandPart<'a>>,
    remaining: Option<CommandPart<'a>>,
) -> (result: CommandResult<'a, T>)
    requires
        cut_from(parts@, line),
        reaches_end(remaining, line),
    ensures
        result@ == parsed_data(line, autocomplete, views(parts@), start_of(remaining), T::top()),
        cut_from(result.parts(), line),
{
    let mut parts = parts;
    let Some(remaining) = remaining else {
        return CommandResult::TooShort { parts, message: Some("expecting index or =") };
    };
    let (mut idx_part, rest) = remaining.split_whitespace();
    let text = idx_part.content().as_bytes();
    if text.len() == 1 && text[0] == 0x3d {
        push_part(&mut parts, idx_part, Ghost(line));
        return parse_value(Ghost(line), TargetVariable::Data, None, parts, rest);
    }
    match parse_number::<usize>(&mut idx_part) {
        Ok(index) => {
            push_part(&mut parts, idx_part, Ghost(line));
            parse_equals(Ghost(line), autocomplete, TargetVariable::Data, Some(index), parts, rest)
        },
        Err(_) => {
            push_part(&mut parts, idx_part, Ghost(line));
            CommandResult::CannotContinue { parts }
        },
    }
}

/// Reads a variable written `data(..)` and what follows it.
fn parse_indexed<'a, T: CellType>(
    Ghost(line): Ghost<Seq<u8>>,
    autocomplete: bool,
    parts: Vec<CommandPart<'a>>,
    variable_part: CommandPart<'a>,
    rest: Option<CommandPart<'a>>,
) -> (result: CommandResult<'a, T>)
    requires
        cut_from(parts@, line),
        reaches_end(rest, line),
        variable_part.line() == line,
        variable_part.well_formed(),
        variable_part.state is Valid,
        variable_part.end == first_stop(line, variable_part.start as int, line.len() as int),
        start_of(rest) == rest_start(line, variable_part.start as int, line.len() as int),
        is_indexed_data(variable_part.content_bytes()),
    ensures
        result@ == parsed_indexed(
            line,
            autocomplete,
            views(parts@),
            variable_part.start as int,
            T::top(),
        ),
        cut_from(result.parts(), line),
{
    let mut parts = parts;
    let mut variable_part = variable_part;
    let ghost token = variable_part.content_bytes();
    let name = variable_part.content();
    proof {
        lemma_marker_bytes();
        encode_utf8_valid_utf8(name@);
        lemma_boundary_is_char_boundary(token, 5);
    }
    let mut index_part = CommandPart {
        source: variable_part.source,
        start: variable_part.start + 5,
        end: variable_part.end - 1,
        state: CommandPartState::Valid,
    };
    assert(index_part.content_bytes() =~= token.subrange(5, token.len() - 1));
    match parse_number::<usize>(&mut index_part) {
        Ok(index) => {
            push_part(&mut parts, variable_part, Ghost(line));
            parse_equals(Ghost(line), autocomplete, TargetVariable::Data, Some(index), parts, rest)
        },
        Err(_) => {
            variable_part.state = index_part.state;
            push_part(&mut parts, variable_part, Ghost(line));
            CommandResult::CannotContinue { parts }
        },
    }
}

/// Reads a variable whose name is one word and what follows it.
fn parse_named<'a, T: CellType>(
    Ghost(line): Ghost<Seq<u8>>,
    autocomplete: bool,
    parts: Vec<CommandPart<'a>>,
    variable_part: CommandPart<'a>,
    rest: Option<CommandPart<'a>>,
) -> (result: CommandResult<'a, T>)
    requires
        cut_from(parts@, line),
        reaches_end(rest, line),
        rest matches Some(part) ==> part.state is Ignored,
        variable_part.line() == line,
        variable_part.well_formed(),
        variable_part.state is Valid,
        variable_part.end == first_stop(line, variable_part.start as int, line.len() as int),
        start_of(rest) == rest_start(line, variable_part.start as int, line.len() as int),
    ensures
        result@ == parsed_named(
            line,
            autocomplete,
            views(parts@),
            variable_part.start as int,
            T::top(),
        ),
        cut_from(result.parts(), line),
{
    let mut parts = parts;
    let mut variable_part = variable_part;
    match TargetVariable::from_str(variable_part.content()) {
        None => {
            let choices: [&'static str; 8] = [
                "instruction pointer",
                "ip",
                "data pointer",
                "dp",
                "data",
                "d",
                "speed",
                "bound",
            ];
            assert(word_list(choices@) =~= variable_words());
            reject(&mut variable_part, "unknown variable '", choices.as_slice(), autocomplete);
            push_part(&mut parts, variable_part, Ghost(line));
            push_rest(&mut parts, rest, Ghost(line));
            CommandResult::CannotContinue { parts }
        },
        Some(TargetVariable::Data) => {
            push_part(&mut parts, variable_part, Ghost(line));
            parse_data(Ghost(line), autocomplete, parts, rest)
        },
        Some(target) => {
            push_part(&mut parts, variable_part, Ghost(line));
            parse_equals(Ghost(line), autocomplete, target, None, parts, rest)
        },
    }
}

/// Whether `name` and the token that follows it spell a variable whose name
/// has two words.
fn followed_by_pointer<'a>(name: &CommandPart<'a>, rest: &Option<CommandPart<'a>>) -> (found: bool)
    requires
        name.well_formed(),
        reaches_end(*rest, name.line()),
    ensures
        found == names_pointer(name.line(), name.content_bytes(), start_of(*rest)),
{
    let word = name.content();
    if uncased_eq(word, "instruction") || uncased_eq(word, "data") {
        match rest {
            Some(next) => {
                let (pointer_part, _) = next.split_whitespace();
                uncased_eq(pointer_part.content(), "pointer")
            },
            None => false,
        }
    } else {
        false
    }
}

/// Reads a variable whose name has two words and what follows it.
fn parse_pointer<'a, T: CellType>(
    Ghost(line): Ghost<Seq<u8>>,
    autocomplete: bool,
    parts: Vec<CommandPart<'a>>,
    variable_part: CommandPart<'a>,
    rest: CommandPart<'a>,
) -> (result: CommandResult<'a, T>)
    requires
        cut_from(parts@, line),
        reaches_end(Some(rest), line),
        variable_part.line() == line,
        variable_part.well_formed(),
        variable_part.state is Valid,
        variable_part.end == first_stop(line, variable_part.start as int, line.len() as int),
        Some(rest.start as int) == rest_start(
            line,
            variable_part.start as int,
            line.len() as int,
        ),
    ensures
        result@ == parsed_pointer(
            line,
            autocomplete,
            views(parts@),
            variable_part.start as int,
            T::top(),
        ),
        cut_from(result.parts(), line),
{
    let mut parts = parts;
    let target = if uncased_eq(variable_part.content(), "instruction") {
        TargetVariable::InstructionPointer
    } else {
        TargetVariable::DataPointer
    };
    let (pointer_part, after) = rest.split_whitespace();
    push_part(&mut parts, variable_part, Ghost(line));
    push_part(&mut parts, pointer_part, Ghost(line));
    parse_equals(Ghost(line), autocomplete, target, None, parts, after)
}

/// Reads what follows the word `set`.
fn parse_set<'a, T: CellType>(
    Ghost(line): Ghost<Seq<u8>>,
    autocomplete: bool,
    parts: Vec<CommandPart<'a>>,
    remaining: Option<CommandPart<'a>>,
) -> (result: CommandResult<'a, T>)
    requires
        cut_from(parts@, line),
        reaches_end(remaining, line),
    ensures
        result@ == parsed_set(line, autocomplete, views(parts@), start_of(remaining), T::top()),
        cut_from(result.parts(), line),
{
    let Some(remaining) = remaining else {
        return CommandResult::TooShort { parts, message: Some("variable name required") };
    };
    let (variable_part, rest) = remaining.split_whitespace();
    let name = variable_part.content();
    let length = name.as_bytes().len();
    if length >= 6 && name.as_bytes()[length - 1] == 0x29 && uncased_starts_with(name, "data(") {
        return parse_indexed(Ghost(line), autocomplete, parts, variable_part, rest);
    }
    if followed_by_pointer(&variable_part, &rest) {
        let Some(rest) = rest else {
            return CommandResult::CannotContinue { parts };
        };
        return parse_pointer(Ghost(line), autocomplete, parts, variable_part, rest);
    }
    parse_named(Ghost(line), autocomplete, parts, variable_part, rest)
}

/// Reads what follows the word `load`: all that is left of the line is the
/// path.
fn parse_load<'a, T: CellType>(
    Ghost(line): Ghost<Seq<u8>>,
    parts: Vec<CommandPart<'a>>,
    remaining: Option<CommandPart<'a>>,
) -> (result: CommandResult<'a, T>)
    requires
        cut_from(parts@, line),
        reaches_end(remaining, line),
    ensures
        result@ == match start_of(remaining) {
            None => ResultView::TooShort {
                parts: views(parts@),
                message: Some("expected file name"@),
            },
            Some(from) => ResultView::Parsed {
                parts: views(parts@).push(
                    part_view(from, line.len() as int, PartStateView::Valid),
                ),
                command: CommandView::LoadScriptFromFile {
                    path: decode_utf8(line.subrange(from, line.len() as int)),
                },
            },
        },
        cut_from(result.parts(), line),
{
    let mut parts = parts;
    let Some(file_part) = remaining else {
        return CommandResult::TooShort { parts, message: Some("expected file name") };
    };
    let mut file_part = file_part;
    file_part.state = CommandPartState::Valid;
    let path = file_part.content().to_owned();
    push_part(&mut parts, file_part, Ghost(line));
    CommandResult::Parsed { parts, command: Command::LoadScriptFromFile { path } }
}

/// Refuses the first word of a line that begins no command.
fn parse_unknown<'a, T: CellType>(
    Ghost(line): Ghost<Seq<u8>>,
    autocomplete: bool,
    command_part: CommandPart<'a>,
) -> (result: CommandResult<'a, T>)
    requires
        command_part.line() == line,
        command_part.well_formed(),
    ensures
        result@ == (ResultView::CannotContinue {
            parts: seq![
                part_view(
                    command_part.start as int,
                    command_part.end as int,
                    rejected(
                        command_part.content_bytes(),
                        quoted("unrecognised command '", command_part.content_bytes()),
                        command_words(),
                        autocomplete,
                    ),
                ),
            ],
        }),
        cut_from(result.parts(), line),
{
    let mut command_part = command_part;
    let mut parts: Vec<CommandPart<'a>> = Vec::new();
    let choices: [&'static str; 6] = ["start", "pause", "set", "load", "quit", "execute"];
    assert(word_list(choices@) =~= command_words());
    reject(&mut command_part, "unrecognised command '", choices.as_slice(), autocomplete);
    assert(views(parts@.push(command_part)) =~= seq![command_part@]);
    push_part(&mut parts, command_part, Ghost(line));
    CommandResult::CannotContinue { parts }
}

/// Reads a command line that is not empty.
fn parse_line<'a, T: CellType>(cmd_str: &'a str, autocomplete: bool) -> (result: CommandResult<
    'a,
    T,
>)
    requires
        cmd_str.spec_bytes().len() > 0,
    ensures
        result@ == parsed(cmd_str.spec_bytes(), autocomplete, T::top()),
        cut_from(result.parts(), cmd_str.spec_bytes()),
{
    let ghost line = cmd_str.spec_bytes();
    let mut parts: Vec<CommandPart<'a>> = Vec::new();
    let main_part = CommandPart::ok(cmd_str);
    let (command_part, remaining) = main_part.split_whitespace();
    let word = command_part.content();
    assert(views(parts@.push(command_part)) =~= seq![command_part@]);
    if uncased_eq(word, "start") {
        push_part(&mut parts, command_part, Ghost(line));
        return CommandResult::Parsed { parts, command: Command::Start };
    }
    if uncased_eq(word, "pause") {
        push_part(&mut parts, command_part, Ghost(line));
        return CommandResult::Parsed { parts, command: Command::Pause };
    }
    if uncased_eq(word, "set") {
        push_part(&mut parts, command_part, Ghost(line));
        return parse_set(Ghost(line), autocomplete, parts, remaining);
    }
    if uncased_eq(word, "load") {
        push_part(&mut parts, command_part, Ghost(line));
        return parse_load(Ghost(line), parts, remaining);
    }
    if uncased_eq(word, "quit") {
        push_part(&mut parts, command_part, Ghost(line));
        return CommandResult::Parsed { parts, command: Command::Quit };
    }
    parse_unknown(Ghost(line), autocomplete, command_part)
}

/// Reads a command line from left to right and tells how far it got: the
/// command, where the line spells one; otherwise the segment that is not
/// what was expected, or what is still missing. With `autocomplete`, a
/// segment that is the beginning of an expected word carries the word as a
/// suggestion.
///
/// The segments of the result are cut from `cmd_str`; they lie inside it,
/// one behind the other. Where the line is read as a command, none of them
/// is invalid or a mere suggestion.
pub fn parse_command<'a, T: CellType>(cmd_str: &'a str, autocomplete: bool) -> (result:
    CommandResult<'a, T>)
    ensures
        result@ == parsed(cmd_str.spec_bytes(), autocomplete, T::top()),
        cut_from(result.parts(), cmd_str.spec_bytes()),
        in_order(views(result.parts()), cmd_str.spec_bytes().len() as int),
        result is Parsed ==> settled(views(result.parts())),
{
    proof {
        lemma_parsed_in_order(cmd_str.spec_bytes(), autocomplete, T::top());
    }
    if cmd_str.as_bytes().len() < 1 {
        let parts: Vec<CommandPart<'a>> = Vec::new();
        assert(views(parts@) =~= Seq::empty());
        return CommandResult::TooShort { parts, message: None };
    }
    parse_line(cmd_str, autocomplete)
}

} // verus!
