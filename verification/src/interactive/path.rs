//! What the file system tells about the path of a `load` command, and what
//! the command line makes of it. Looking at the file system is the host's
//! part; choosing among what it found is done here.

use vstd::prelude::*;
use vstd::string::*;
use vstd::utf8::*;

use crate::interactive::command::{CommandPart, CommandPartState, PartStateView};

verus! {

/// An entry of a directory: its name, and whether it is a directory itself.
pub struct DirectoryEntry {
    pub name: String,
    pub is_dir: bool,
}

/// What the host found out about a path.
pub struct PathProbe {
    /// Whether anything exists at the path.
    pub exists: bool,
    /// Whether a file exists at the path.
    pub is_file: bool,
    /// The path that the host proposes in place of the one typed.
    pub suggestion: Option<String>,
}

/// Whether `left` comes before `right` in the order of texts: at the first
/// place where they differ `left` has the smaller byte, or `left` ends
/// there and `right` goes on.
pub open spec fn comes_before(left: Seq<u8>, right: Seq<u8>) -> bool
    decreases left.len(),
{
    if right.len() == 0 {
        false
    } else if left.len() == 0 {
        true
    } else if left[0] != right[0] {
        left[0] < right[0]
    } else {
        comes_before(left.drop_first(), right.drop_first())
    }
}

/// Whether `text` begins with `prefix`.
pub open spec fn begins(text: Seq<u8>, prefix: Seq<u8>) -> bool {
    prefix.len() <= text.len() && text.subrange(0, prefix.len() as int) == prefix
}

/// Among the first `count` of `names`, the place of the name that begins
/// with `prefix` and comes before all others that do; of equal names the
/// first.
pub open spec fn best_entry(names: Seq<Seq<u8>>, prefix: Seq<u8>, count: int) -> Option<int>
    decreases count,
{
    if count <= 0 {
        None
    } else {
        let at = count - 1;
        match best_entry(names, prefix, at) {
            None => if begins(names[at], prefix) {
                Some(at)
            } else {
                None
            },
            Some(best) => if begins(names[at], prefix) && comes_before(names[at], names[best]) {
                Some(at)
            } else {
                Some(best)
            },
        }
    }
}

/// The names of a row of entries, as bytes.
pub open spec fn entry_names(entries: Seq<DirectoryEntry>) -> Seq<Seq<u8>> {
    entries.map_values(|entry: DirectoryEntry| encode_utf8(entry.name@))
}

/// The entry found by `best_entry` begins with the prefix, and none that
/// does comes before it.
pub proof fn lemma_best_entry_is_least(names: Seq<Seq<u8>>, prefix: Seq<u8>, count: int)
    requires
        0 <= count <= names.len(),
    ensures
        match best_entry(names, prefix, count) {
            Some(best) => {
                &&& 0 <= best < count
                &&& begins(names[best], prefix)
                &&& forall|i: int|
                    0 <= i < count && begins(#[trigger] names[i], prefix) ==> !comes_before(
                        names[i],
                        names[best],
                    )
            },
            None => forall|i: int| 0 <= i < count ==> !begins(#[trigger] names[i], prefix),
        },
    decreases count,
{
    if count > 0 {
        let at = count - 1;
        lemma_best_entry_is_least(names, prefix, at);
        match best_entry(names, prefix, at) {
            Some(best) => {
                if begins(names[at], prefix) && comes_before(names[at], names[best]) {
                    assert forall|i: int| 0 <= i < count && begins(#[trigger] names[i], prefix)
                        implies !comes_before(names[i], names[at]) by {
                        if i < at && comes_before(names[i], names[at]) {
                            lemma_comes_before_transitive(names[i], names[at], names[best]);
                        }
                        lemma_comes_before_irreflexive(names[at]);
                    }
                }
            },
            None => {
                lemma_comes_before_irreflexive(names[at]);
            },
        }
    }
}

/// No text comes before itself.
pub proof fn lemma_comes_before_irreflexive(text: Seq<u8>)
    ensures
        !comes_before(text, text),
    decreases text.len(),
{
    if text.len() > 0 {
        lemma_comes_before_irreflexive(text.drop_first());
    }
}

/// What comes before a text comes before everything behind that text.
pub proof fn lemma_comes_before_transitive(first: Seq<u8>, second: Seq<u8>, third: Seq<u8>)
    requires
        comes_before(first, second),
        comes_before(second, third),
    ensures
        comes_before(first, third),
    decreases first.len(),
{
    if first.len() > 0 && first[0] == second[0] && second[0] == third[0] {
        lemma_comes_before_transitive(
            first.drop_first(),
            second.drop_first(),
            third.drop_first(),
        );
    }
}

/// Whether `left` comes before `right` in the order of texts.
pub fn text_comes_before(left: &str, right: &str) -> (before: bool)
    ensures
        before == comes_before(left.spec_bytes(), right.spec_bytes()),
{
    let a = left.as_bytes();
    let b = right.as_bytes();
    let mut i: usize = 0;
    assert(a@.skip(0) =~= a@);
    assert(b@.skip(0) =~= b@);
    while i < a.len() && i < b.len()
        invariant
            i <= a@.len(),
            i <= b@.len(),
            a@ == left.spec_bytes(),
            b@ == right.spec_bytes(),
            comes_before(a@, b@) == comes_before(a@.skip(i as int), b@.skip(i as int)),
        decreases a.len() - i,
    {
        proof {
            assert(a@.skip(i as int).drop_first() =~= a@.skip(i + 1));
            assert(b@.skip(i as int).drop_first() =~= b@.skip(i + 1));
            assert(a@.skip(i as int)[0] == a@[i as int]);
            assert(b@.skip(i as int)[0] == b@[i as int]);
        }
        if a[i] != b[i] {
            return a[i] < b[i];
        }
        i += 1;
    }
    i < b.len()
}

/// Whether `text` begins with `prefix`.
pub fn text_begins(text: &str, prefix: &str) -> (found: bool)
    ensures
        found == begins(text.spec_bytes(), prefix.spec_bytes()),
{
    let a = text.as_bytes();
    let b = prefix.as_bytes();
    if b.len() > a.len() {
        return false;
    }
    let mut i: usize = 0;
    assert(a@.subrange(0, 0) =~= b@.subrange(0, 0));
    while i < b.len()
        invariant
            i <= b@.len() <= a@.len(),
            a@ == text.spec_bytes(),
            b@ == prefix.spec_bytes(),
            a@.subrange(0, i as int) == b@.subrange(0, i as int),
        decreases b.len() - i,
    {
        if a[i] != b[i] {
            assert(a@.subrange(0, b@.len() as int)[i as int] != b@[i as int]);
            return false;
        }
        assert(a@.subrange(0, i + 1) =~= a@.subrange(0, i as int).push(a@[i as int]));
        assert(b@.subrange(0, i + 1) =~= b@.subrange(0, i as int).push(b@[i as int]));
        i += 1;
    }
    assert(b@.subrange(0, i as int) =~= b@);
    true
}

/// Whether two texts are the same.
pub fn text_equals(left: &str, right: &str) -> (same: bool)
    ensures
        same == (left.spec_bytes() == right.spec_bytes()),
{
    let a = left.as_bytes();
    let b = right.as_bytes();
    if a.len() != b.len() {
        return false;
    }
    let found = text_begins(left, right);
    proof {
        assert(a@.subrange(0, a@.len() as int) =~= a@);
    }
    found
}

/// Chooses, among the entries of a directory, the one to propose for a
/// name that the operator has begun: the entry that begins with
/// `start_with` and comes first in the order of texts. An entry that is a
/// directory and is named `file_name` in full gets `separator` behind it, so
/// that the operator can go on into it.
pub fn suggest_entry(
    entries: &Vec<DirectoryEntry>,
    start_with: &str,
    file_name: &str,
    separator: &str,
) -> (suggestion: Option<String>)
    ensures
        match best_entry(
            entry_names(entries@),
            start_with.spec_bytes(),
            entries@.len() as int,
        ) {
            Some(best) => suggestion matches Some(text) && text@ == if entries@[best].is_dir
                && encode_utf8(entries@[best].name@) == file_name.spec_bytes() {
                entries@[best].name@ + separator@
            } else {
                entries@[best].name@
            },
            None => suggestion is None,
        },
{
    let ghost names = entry_names(entries@);
    let mut found: Option<usize> = None;
    let mut i: usize = 0;
    while i < entries.len()
        invariant
            i <= entries@.len(),
            names == entry_names(entries@),
            match best_entry(names, start_with.spec_bytes(), i as int) {
                Some(best) => found == Some(best as usize) && 0 <= best < i,
                None => found is None,
            },
        decreases entries.len() - i,
    {
        let name = entries[i].name.as_str();
        if text_begins(name, start_with) {
            match found {
                Some(best) => {
                    if text_comes_before(name, entries[best].name.as_str()) {
                        found = Some(i);
                    }
                },
                None => {
                    found = Some(i);
                },
            }
        }
        i += 1;
    }
    match found {
        Some(best) => {
            let entry = &entries[best];
            let mut text = entry.name.clone();
            if entry.is_dir && text_equals(entry.name.as_str(), file_name) {
                text.append(separator);
            }
            Some(text)
        },
        None => None,
    }
}

/// The state of the path segment of a `load` command after the host has
/// looked at the path: a proposal, where suggestions are asked for and the
/// host has one; else the reason why the path names no file; else the state
/// that the segment had.
pub open spec fn probed_state(
    state: PartStateView,
    exists: bool,
    is_file: bool,
    suggestion: Option<Seq<char>>,
    autocomplete: bool,
) -> PartStateView {
    if autocomplete && suggestion is Some {
        PartStateView::Autocomplete { suggestion: suggestion->0 }
    } else if !exists {
        PartStateView::Invalid(Some("file not found"@))
    } else if !is_file {
        PartStateView::Invalid(Some("path does not refer to a file"@))
    } else {
        state
    }
}

/// A proposal as a plain value.
pub open spec fn suggestion_view(suggestion: Option<String>) -> Option<Seq<char>> {
    match suggestion {
        Some(text) => Some(text@),
        None => None,
    }
}

/// Marks the path segment `part` of a `load` command with what the host
/// found out about the path.
pub fn apply_path_probe(part: &mut CommandPart<'_>, probe: PathProbe, autocomplete: bool)
    ensures
        final(part).source == old(part).source,
        final(part).start == old(part).start,
        final(part).end == old(part).end,
        final(part).state@ == probed_state(
            old(part).state@,
            probe.exists,
            probe.is_file,
            suggestion_view(probe.suggestion),
            autocomplete,
        ),
{
    if !probe.exists {
        part.state = CommandPartState::Invalid(Some(String::from_str("file not found")));
    } else if !probe.is_file {
        part.state = CommandPartState::Invalid(
            Some(String::from_str("path does not refer to a file")),
        );
    }
    if autocomplete {
        match probe.suggestion {
            Some(suggestion) => {
                part.state = CommandPartState::Autocomplete { suggestion };
            },
            None => {},
        }
    }
}

} // verus!
