//! The laws of the segments: whatever the command line holds, the segments
//! that the tokenizer cuts from it lie inside the line, one behind the
//! other, without overlap; and where the line is read as a command, none of
//! its segments is invalid or a mere suggestion.

use vstd::prelude::*;

use crate::interactive::command::{
    first_stop, parsed, parsed_data, parsed_equals, parsed_indexed, parsed_named,
    parsed_pointer, parsed_set, parsed_value, part_view, rest_start, trailing, PartStateView,
    PartView, ResultView, TargetVariable,
};
use crate::interactive::text::{skip_whitespace, token_end, whitespace_len};

verus! {

/// The segments of a result.
pub open spec fn result_parts(result: ResultView) -> Seq<PartView> {
    match result {
        ResultView::Parsed { parts, .. } => parts,
        ResultView::CannotContinue { parts } => parts,
        ResultView::TooShort { parts, .. } => parts,
    }
}

/// The segments lie between the start of the line and `limit`, each behind
/// the one before it.
pub open spec fn in_order(parts: Seq<PartView>, limit: int) -> bool {
    &&& forall|i: int|
        0 <= i < parts.len() ==> 0 <= (#[trigger] parts[i]).start <= parts[i].end <= limit
    &&& forall|i: int, j: int|
        0 <= i < j < parts.len() ==> (#[trigger] parts[i]).end <= (#[trigger] parts[j]).start
}

/// No segment is invalid or a mere suggestion.
pub open spec fn settled(parts: Seq<PartView>) -> bool {
    forall|i: int|
        0 <= i < parts.len() ==> (#[trigger] parts[i]).state is Valid || parts[i].state is Ignored
}

/// Where `result` is a command, all its segments are settled.
pub open spec fn settled_if_parsed(result: ResultView) -> bool {
    result is Parsed ==> settled(result_parts(result))
}

/// Every segment ends at `at` or before it.
pub open spec fn ends_by(parts: Seq<PartView>, at: int) -> bool {
    forall|i: int| 0 <= i < parts.len() ==> (#[trigger] parts[i]).end <= at
}

/// A token ends between its start and the end of what is scanned.
pub proof fn lemma_token_end_bounds(line: Seq<u8>, from: int, end: int)
    requires
        from <= end,
    ensures
        from <= token_end(line, from, end) <= end,
    decreases end - from,
{
    if from < end && whitespace_len(line, from, end) == 0 {
        lemma_token_end_bounds(line, from + 1, end);
    }
}

/// A run of white space ends between its start and the end of what is
/// scanned.
pub proof fn lemma_skip_whitespace_bounds(line: Seq<u8>, from: int, end: int)
    requires
        from <= end,
    ensures
        from <= skip_whitespace(line, from, end) <= end,
    decreases end - from,
{
    if from < end && whitespace_len(line, from, end) > 0 {
        lemma_skip_whitespace_bounds(line, from + whitespace_len(line, from, end), end);
    }
}

/// The first token of a stretch lies in the stretch, and the rest starts
/// behind the token and before the end.
pub proof fn lemma_split_bounds(line: Seq<u8>, from: int, end: int)
    requires
        from <= end,
    ensures
        from <= first_stop(line, from, end) <= end,
        rest_start(line, from, end) matches Some(rest) ==> first_stop(line, from, end) <= rest
            < end,
{
    lemma_token_end_bounds(line, from, end);
    lemma_skip_whitespace_bounds(line, token_end(line, from, end), end);
}

/// A segment behind segments in order keeps them in order.
pub proof fn lemma_push_in_order(
    parts: Seq<PartView>,
    limit: int,
    start: int,
    end: int,
    state: PartStateView,
)
    requires
        in_order(parts, limit),
        ends_by(parts, start),
        0 <= start <= end <= limit,
    ensures
        in_order(parts.push(part_view(start, end, state)), limit),
        ends_by(parts.push(part_view(start, end, state)), end),
        settled(parts) && (state is Valid || state is Ignored) ==> settled(
            parts.push(part_view(start, end, state)),
        ),
{
}

/// The segment for the rest of the line keeps segments in order.
pub proof fn lemma_trailing_in_order(parts: Seq<PartView>, limit: int, rest: Option<int>)
    requires
        in_order(parts, limit),
        rest matches Some(from) ==> 0 <= from <= limit && ends_by(parts, from),
    ensures
        in_order(parts + trailing(rest, limit), limit),
        settled(parts) ==> settled(parts + trailing(rest, limit)),
{
    match rest {
        Some(from) => {
            lemma_push_in_order(parts, limit, from, limit, PartStateView::Ignored);
            assert(parts + trailing(rest, limit) =~= parts.push(
                part_view(from, limit, PartStateView::Ignored),
            ));
        },
        None => {
            assert(parts + trailing(rest, limit) =~= parts);
        },
    }
}

/// The segments of a value are in order behind those read before.
pub proof fn lemma_value_in_order(
    line: Seq<u8>,
    target: TargetVariable,
    idx: Option<nat>,
    parts: Seq<PartView>,
    rest: Option<int>,
    top: nat,
)
    requires
        settled(parts),
        in_order(parts, line.len() as int),
        rest matches Some(from) ==> 0 <= from <= line.len() && ends_by(parts, from),
    ensures
        settled_if_parsed(parsed_value(line, target, idx, parts, rest, top)),
        in_order(result_parts(parsed_value(line, target, idx, parts, rest, top)), line.len() as int),
{
    let end = line.len() as int;
    match rest {
        Some(from) => {
            lemma_split_bounds(line, from, end);
            let stop = first_stop(line, from, end);
            let after = rest_start(line, from, end);
            assert forall|state: PartStateView|
                in_order(
                    (#[trigger] parts.push(part_view(from, stop, state))) + trailing(after, end),
                    end,
                ) && (state is Valid ==> settled(
                    parts.push(part_view(from, stop, state)) + trailing(after, end),
                )) by {
                lemma_push_in_order(parts, end, from, stop, state);
                lemma_trailing_in_order(parts.push(part_view(from, stop, state)), end, after);
            }
            assert forall|state: PartStateView|
                in_order(#[trigger] parts.push(part_view(from, end, state)), end) && (state
                    is Valid ==> settled(parts.push(part_view(from, end, state)))) by {
                lemma_push_in_order(parts, end, from, end, state);
            }
        },
        None => {},
    }
}

/// The segments of the equals sign and the value are in order behind those
/// read before.
pub proof fn lemma_equals_in_order(
    line: Seq<u8>,
    autocomplete: bool,
    target: TargetVariable,
    idx: Option<nat>,
    parts: Seq<PartView>,
    rest: Option<int>,
    top: nat,
)
    requires
        settled(parts),
        in_order(parts, line.len() as int),
        rest matches Some(from) ==> 0 <= from <= line.len() && ends_by(parts, from),
    ensures
        settled_if_parsed(parsed_equals(line, autocomplete, target, idx, parts, rest, top)),
        in_order(
            result_parts(parsed_equals(line, autocomplete, target, idx, parts, rest, top)),
            line.len() as int,
        ),
{
    let end = line.len() as int;
    match rest {
        Some(from) => {
            lemma_split_bounds(line, from, end);
            let stop = first_stop(line, from, end);
            assert forall|state: PartStateView|
                in_order(#[trigger] parts.push(part_view(from, stop, state)), end) && ends_by(
                    parts.push(part_view(from, stop, state)),
                    stop,
                ) && (state is Valid ==> settled(parts.push(part_view(from, stop, state)))) by {
                lemma_push_in_order(parts, end, from, stop, state);
            }
            lemma_value_in_order(
                line,
                target,
                idx,
                parts.push(part_view(from, stop, PartStateView::Valid)),
                rest_start(line, from, end),
                top,
            );
        },
        None => {},
    }
}

/// The segments behind the variable `data` are in order behind those read
/// before.
pub proof fn lemma_data_in_order(
    line: Seq<u8>,
    autocomplete: bool,
    parts: Seq<PartView>,
    rest: Option<int>,
    top: nat,
)
    requires
        settled(parts),
        in_order(parts, line.len() as int),
        rest matches Some(from) ==> 0 <= from <= line.len() && ends_by(parts, from),
    ensures
        settled_if_parsed(parsed_data(line, autocomplete, parts, rest, top)),
        in_order(
            result_parts(parsed_data(line, autocomplete, parts, rest, top)),
            line.len() as int,
        ),
{
    let end = line.len() as int;
    match rest {
        Some(from) => {
            lemma_split_bounds(line, from, end);
            let stop = first_stop(line, from, end);
            let after = rest_start(line, from, end);
            let named = parts.push(part_view(from, stop, PartStateView::Valid));
            assert forall|state: PartStateView|
                in_order(#[trigger] parts.push(part_view(from, stop, state)), end) && ends_by(
                    parts.push(part_view(from, stop, state)),
                    stop,
                ) && (state is Valid ==> settled(parts.push(part_view(from, stop, state)))) by {
                lemma_push_in_order(parts, end, from, stop, state);
            }
            lemma_value_in_order(line, TargetVariable::Data, None, named, after, top);
            assert forall|index: nat|
                in_order(
                    result_parts(
                        #[trigger] parsed_equals(
                            line,
                            autocomplete,
                            TargetVariable::Data,
                            Some(index),
                            named,
                            after,
                            top,
                        ),
                    ),
                    end,
                ) by {
                lemma_equals_in_order(
                    line,
                    autocomplete,
                    TargetVariable::Data,
                    Some(index),
                    named,
                    after,
                    top,
                );
            }
        },
        None => {},
    }
}

/// The segments behind the word `set` are in order behind those read
/// before.
pub proof fn lemma_set_in_order(
    line: Seq<u8>,
    autocomplete: bool,
    parts: Seq<PartView>,
    rest: Option<int>,
    top: nat,
)
    requires
        settled(parts),
        in_order(parts, line.len() as int),
        rest matches Some(from) ==> 0 <= from <= line.len() && ends_by(parts, from),
    ensures
        settled_if_parsed(parsed_set(line, autocomplete, parts, rest, top)),
        in_order(
            result_parts(parsed_set(line, autocomplete, parts, rest, top)),
            line.len() as int,
        ),
{
    let end = line.len() as int;
    match rest {
        Some(from) => {
            lemma_split_bounds(line, from, end);
            let stop = first_stop(line, from, end);
            let after = rest_start(line, from, end);
            let named = parts.push(part_view(from, stop, PartStateView::Valid));
            assert forall|state: PartStateView|
                in_order(#[trigger] parts.push(part_view(from, stop, state)), end) && ends_by(
                    parts.push(part_view(from, stop, state)),
                    stop,
                ) && (state is Valid ==> settled(parts.push(part_view(from, stop, state)))) by {
                lemma_push_in_order(parts, end, from, stop, state);
            }
            assert forall|state: PartStateView|
                in_order(
                    (#[trigger] parts.push(part_view(from, stop, state))) + trailing(after, end),
                    end,
                ) by {
                lemma_trailing_in_order(parts.push(part_view(from, stop, state)), end, after);
            }
            assert forall|target: TargetVariable, idx: Option<nat>|
                in_order(
                    result_parts(
                        #[trigger] parsed_equals(line, autocomplete, target, idx, named, after, top),
                    ),
                    end,
                ) by {
                lemma_equals_in_order(line, autocomplete, target, idx, named, after, top);
            }
            lemma_data_in_order(line, autocomplete, named, after, top);
            assert(in_order(result_parts(parsed_indexed(line, autocomplete, parts, from, top)), end));
            assert(in_order(result_parts(parsed_named(line, autocomplete, parts, from, top)), end));
            match after {
                Some(second) => {
                    lemma_split_bounds(line, second, end);
                    let second_stop = first_stop(line, second, end);
                    lemma_push_in_order(named, end, second, second_stop, PartStateView::Valid);
                    let both = named.push(part_view(second, second_stop, PartStateView::Valid));
                    assert forall|target: TargetVariable|
                        in_order(
                            result_parts(
                                #[trigger] parsed_equals(
                                    line,
                                    autocomplete,
                                    target,
                                    None,
                                    both,
                                    rest_start(line, second, end),
                                    top,
                                ),
                            ),
                            end,
                        ) by {
                        lemma_equals_in_order(
                            line,
                            autocomplete,
                            target,
                            None,
                            both,
                            rest_start(line, second, end),
                            top,
                        );
                    }
                    assert(in_order(
                        result_parts(parsed_pointer(line, autocomplete, parts, from, top)),
                        end,
                    ));
                },
                None => {},
            }
        },
        None => {},
    }
}

/// The segments that the tokenizer cuts from a command line lie inside the
/// line, each behind the one before it.
pub proof fn lemma_parsed_in_order(line: Seq<u8>, autocomplete: bool, top: nat)
    ensures
        in_order(result_parts(parsed(line, autocomplete, top)), line.len() as int),
        settled_if_parsed(parsed(line, autocomplete, top)),
{
    let end = line.len() as int;
    lemma_split_bounds(line, 0, end);
    let stop = first_stop(line, 0, end);
    let rest = rest_start(line, 0, end);
    let none = Seq::<PartView>::empty();
    assert forall|state: PartStateView|
        in_order(#[trigger] seq![part_view(0, stop, state)], end) && ends_by(
            seq![part_view(0, stop, state)],
            stop,
        ) by {
        lemma_push_in_order(none, end, 0, stop, state);
        assert(seq![part_view(0, stop, state)] =~= none.push(part_view(0, stop, state)));
    }
    let word = seq![part_view(0, stop, PartStateView::Valid)];
    lemma_set_in_order(line, autocomplete, word, rest, top);
    match rest {
        Some(from) => {
            lemma_push_in_order(word, end, from, end, PartStateView::Valid);
        },
        None => {},
    }
}

} // verus!
