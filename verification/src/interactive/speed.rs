//! The machine's pace, and how it is written and read as text.

use std::time::Duration;
use vstd::prelude::*;
use vstd::string::*;
use vstd::utf8::*;

verus! {

/// The time that the machine takes for one instruction: whole seconds and
/// the nanoseconds beyond them, which stay below one second.
#[derive(Copy, Clone, Debug)]
pub struct ClockSpeed {
    secs: u64,
    nanos: u32,
}

/// What `humantime` makes of a text that should be a duration: the length
/// in nanoseconds, or the words in which it says what is wrong with the text.
pub uninterp spec fn parsed_duration(text: Seq<char>) -> Result<nat, Seq<char>>;

/// The text that `humantime` writes for a duration of so many nanoseconds.
pub uninterp spec fn formatted_duration(nanos: nat) -> Seq<char>;

/// The largest number of digits that the text of a duration may hold.
pub const DIGIT_LIMIT: usize = 11;

/// The number of decimal digits among the bytes of `text`.
pub open spec fn digit_count(text: Seq<u8>) -> nat
    decreases text.len(),
{
    if text.len() == 0 {
        0
    } else if 0x30 <= text.last() <= 0x39 {
        digit_count(text.drop_last()) + 1
    } else {
        digit_count(text.drop_last())
    }
}

/// Whether `text` holds no more digits than a duration may hold.
pub open spec fn few_digits(text: Seq<u8>) -> bool {
    digit_count(text) <= DIGIT_LIMIT
}

/// What the library makes of a text that should be a duration: a text with
/// more digits than a duration may hold is refused in the library's own
/// words, every other text is read by `humantime`.
pub open spec fn read_duration(text: Seq<u8>) -> Result<nat, Seq<char>> {
    if few_digits(text) {
        parsed_duration(decode_utf8(text))
    } else {
        Err("too many digits in a duration"@)
    }
}

/// Whether `text` holds no more digits than a duration may hold.
pub fn has_few_digits(text: &str) -> (few: bool)
    ensures
        few == few_digits(text.spec_bytes()),
{
    let bytes = text.as_bytes();
    let mut count: usize = 0;
    let mut i: usize = 0;
    while i < bytes.len()
        invariant
            i <= bytes@.len(),
            bytes@ == text.spec_bytes(),
            count == digit_count(bytes@.take(i as int)),
            count <= DIGIT_LIMIT,
        decreases bytes.len() - i,
    {
        proof {
            assert(bytes@.take(i + 1).drop_last() =~= bytes@.take(i as int));
        }
        if 0x30 <= bytes[i] && bytes[i] <= 0x39 {
            if count == DIGIT_LIMIT {
                proof {
                    lemma_digit_count_grows(bytes@, i + 1);
                }
                return false;
            }
            count += 1;
        }
        i += 1;
    }
    proof {
        assert(bytes@.take(i as int) =~= bytes@);
    }
    true
}

/// A text holds at least as many digits as each of its beginnings.
pub proof fn lemma_digit_count_grows(text: Seq<u8>, count: int)
    requires
        0 <= count <= text.len(),
    ensures
        digit_count(text.take(count)) <= digit_count(text),
    decreases text.len(),
{
    if count == text.len() {
        assert(text.take(count) =~= text);
    } else {
        lemma_digit_count_grows(text.drop_last(), count);
        assert(text.drop_last().take(count) =~= text.take(count));
    }
}

impl ClockSpeed {
    #[verifier::type_invariant]
    spec fn in_range(self) -> bool {
        self.nanos < 1_000_000_000
    }

    /// The length of the time in nanoseconds.
    pub closed spec fn total_nanos(self) -> nat {
        (self.secs * 1_000_000_000 + self.nanos) as nat
    }

    /// The time of `secs` seconds and `nanos` nanoseconds, where `nanos` is
    /// less than a second.
    pub fn new(secs: u64, nanos: u32) -> (speed: Option<Self>)
        ensures
            speed is Some == (nanos < 1_000_000_000),
            speed matches Some(made) ==> made.total_nanos() == secs * 1_000_000_000 + nanos,
    {
        if nanos < 1_000_000_000 {
            Some(Self { secs, nanos })
        } else {
            None
        }
    }

    /// The time of `millis` milliseconds.
    pub fn from_millis(millis: u64) -> (speed: Self)
        ensures
            speed.total_nanos() == millis * 1_000_000,
    {
        let secs = millis / 1000;
        let rest = (millis % 1000) as u32;
        assert(secs * 1_000_000_000 + rest * 1_000_000 == millis * 1_000_000) by (nonlinear_arith)
            requires
                secs == millis / 1000,
                rest == millis % 1000,
        ;
        Self { secs, nanos: rest * 1_000_000 }
    }

    /// The sum of two times, where the seconds can still be counted.
    pub fn checked_add(&self, other: &Self) -> (sum: Option<Self>)
        ensures
            sum is Some == (self.total_nanos() + other.total_nanos() < (u64::MAX + 1)
                * 1_000_000_000),
            sum matches Some(time) ==> time.total_nanos() == self.total_nanos()
                + other.total_nanos(),
    {
        proof {
            use_type_invariant(self);
            use_type_invariant(other);
        }
        let nanos = self.nanos + other.nanos;
        let carry: u64 = if nanos >= 1_000_000_000 {
            1
        } else {
            0
        };
        let rest = if nanos >= 1_000_000_000 {
            nanos - 1_000_000_000
        } else {
            nanos
        };
        match self.secs.checked_add(other.secs) {
            Some(secs) => match secs.checked_add(carry) {
                Some(secs) => Some(Self { secs, nanos: rest }),
                None => None,
            },
            None => None,
        }
    }

    /// The difference of two times, where the first is not the shorter.
    pub fn checked_sub(&self, other: &Self) -> (difference: Option<Self>)
        ensures
            difference is Some == (other.total_nanos() <= self.total_nanos()),
            difference matches Some(time) ==> time.total_nanos() == self.total_nanos()
                - other.total_nanos(),
    {
        proof {
            use_type_invariant(self);
            use_type_invariant(other);
        }
        if self.secs < other.secs || (self.secs == other.secs && self.nanos < other.nanos) {
            return None;
        }
        if self.nanos >= other.nanos {
            Some(Self { secs: self.secs - other.secs, nanos: self.nanos - other.nanos })
        } else {
            Some(
                Self {
                    secs: self.secs - other.secs - 1,
                    nanos: self.nanos + 1_000_000_000 - other.nanos,
                },
            )
        }
    }

    /// The whole seconds of the time.
    pub fn as_secs(&self) -> (secs: u64)
        ensures
            secs == self.total_nanos() / 1_000_000_000,
    {
        proof {
            use_type_invariant(self);
        }
        self.secs
    }

    /// The nanoseconds beyond the whole seconds.
    pub fn subsec_nanos(&self) -> (nanos: u32)
        ensures
            nanos == self.total_nanos() % 1_000_000_000,
    {
        proof {
            use_type_invariant(self);
        }
        self.nanos
    }

    /// Reads a duration as `humantime::parse_duration` reads it. A refusal
    /// comes with the text that `humantime` displays for its error. The
    /// duration is taken apart by `Duration::as_secs` and
    /// `Duration::subsec_nanos`, and the latter stays below one second.
    ///
    /// `humantime` adds up the parts of the text in checked arithmetic, but
    /// a sum of exactly one second of nanoseconds it hands on to
    /// `Duration::new`, which panics where the seconds are at their largest
    /// already. A text of at most eleven digits cannot get there: each part
    /// adds fewer seconds than its number times the seconds of a year, and
    /// at most some twenty thousand million more from its nanoseconds, so
    /// that all the parts together stay below the largest count by far.
    #[verifier::external_body]
    pub(crate) fn parse(text: &str) -> (read: Result<Self, String>)
        requires
            few_digits(text.spec_bytes()),
        ensures
            match parsed_duration(text@) {
                Ok(nanos) => read matches Ok(speed) && speed.total_nanos() == nanos,
                Err(reason) => read matches Err(told) && told@ == reason,
            },
    {
        match humantime::parse_duration(text) {
            Ok(duration) => Ok(Self { secs: duration.as_secs(), nanos: duration.subsec_nanos() }),
            Err(error) => Err(error.to_string()),
        }
    }

    /// Reads the duration that `text` spells. A text with more digits than
    /// a duration may hold is refused in so many words; every other text is
    /// read by `humantime`, whose words come with a refusal.
    pub fn read(text: &str) -> (read: Result<Self, String>)
        ensures
            match read_duration(text.spec_bytes()) {
                Ok(nanos) => read matches Ok(speed) && speed.total_nanos() == nanos,
                Err(reason) => read matches Err(told) && told@ == reason,
            },
    {
        if !has_few_digits(text) {
            return Err(String::from_str("too many digits in a duration"));
        }
        proof {
            encode_utf8_decode_utf8(text@);
        }
        Self::parse(text)
    }

    /// Writes the time as `humantime::format_duration` displays it. The
    /// nanoseconds of a `ClockSpeed` stay below one second, so that
    /// `Duration::new` has nothing to carry over into the seconds.
    #[verifier::external_body]
    pub(crate) fn format(&self) -> (text: String)
        ensures
            text@ == formatted_duration(self.total_nanos()),
    {
        humantime::format_duration(Duration::new(self.secs, self.nanos)).to_string()
    }
}

/// By how much the speed changes at a key press: by a tenth of a second, or,
/// with a modifier key held, by a fortieth (alt), a twentieth (shift) or a
/// fifth (control).
pub fn speed_diff(shift: bool, ctrl: bool, alt: bool) -> (step: ClockSpeed)
    ensures
        step.total_nanos() == 1_000_000 * if alt {
            25nat
        } else if shift {
            50nat
        } else if ctrl {
            200nat
        } else {
            100nat
        },
{
    ClockSpeed::from_millis(
        if alt {
            25
        } else if shift {
            50
        } else if ctrl {
            200
        } else {
            100
        },
    )
}

} // verus!
