//! Cell values and the memory they live in.

use vstd::prelude::*;
use vstd::string::*;

use crate::number::{parse_radix, radix_value_within};
use crate::runtime::cell_bytes::{be_bytes, held_bytes, CellBytes};

verus! {

/// An unsigned integer type that can serve as a memory cell.
///
/// A cell value is known to the rest of the library by the number it stands
/// for; all arithmetic on cells is stated over those numbers.
pub trait CellType: Copy + Sized {
    /// The number that a cell value stands for.
    spec fn value(self) -> nat;

    /// The largest number that the type can hold.
    spec fn top() -> nat;

    /// The number of bytes that a value of the type takes.
    spec fn width() -> nat;

    /// No value exceeds `top`.
    proof fn lemma_value_in_range(self)
        ensures
            self.value() <= Self::top(),
    ;

    /// Two cell values that stand for the same number are the same value.
    proof fn lemma_value_decides(self, other: Self)
        requires
            self.value() == other.value(),
        ensures
            self == other,
    ;

    /// The smallest value of the type.
    fn min_value() -> (r: Self)
        ensures
            r.value() == 0,
    ;

    /// The value that an untouched cell holds.
    fn zero() -> (r: Self)
        ensures
            r.value() == 0,
    ;

    /// The step of an increment or decrement.
    fn one() -> (r: Self)
        ensures
            r.value() == 1,
    ;

    /// The largest value of the type.
    fn max_value() -> (r: Self)
        ensures
            r.value() == Self::top(),
    ;

    /// The cell value of a byte that was read from outside.
    fn from_u8(value: u8) -> (r: Self)
        ensures
            r.value() == value,
    ;

    /// Reads a cell value written in `radix`: an optional `+`, then digits.
    /// Text that is no such number, or a number beyond `top`, is refused.
    fn from_str_radix(str: &str, radix: u32) -> (r: Result<Self, ()>)
        requires
            2 <= radix <= 36,
        ensures
            r is Ok == radix_value_within(str.spec_bytes(), radix as nat, Self::top()) is Some,
            r matches Ok(cell) ==> radix_value_within(str.spec_bytes(), radix as nat, Self::top())
                == Some(cell.value()),
    ;

    /// The bytes of the value, the most significant first.
    fn as_u8_array(&self) -> (r: CellBytes)
        ensures
            held_bytes(r) == be_bytes(self.value(), Self::width()),
    ;

    /// Whether `self` is smaller than `other`.
    fn less_than(self, other: Self) -> (r: bool)
        ensures
            r == (self.value() < other.value()),
    ;

    /// Whether both stand for the same number.
    fn same_as(self, other: Self) -> (r: bool)
        ensures
            r == (self.value() == other.value()),
    ;

    /// The sum, where it fits.
    fn plus(self, other: Self) -> (r: Self)
        requires
            self.value() + other.value() <= Self::top(),
        ensures
            r.value() == self.value() + other.value(),
    ;

    /// The difference, where it is not negative.
    fn minus(self, other: Self) -> (r: Self)
        requires
            other.value() <= self.value(),
        ensures
            r.value() == self.value() - other.value(),
    ;
}

impl CellType for u8 {
    open spec fn value(self) -> nat {
        self as nat
    }

    open spec fn top() -> nat {
        u8::MAX as nat
    }

    open spec fn width() -> nat {
        1
    }

    proof fn lemma_value_in_range(self) {
    }

    proof fn lemma_value_decides(self, other: Self) {
    }

    fn min_value() -> (r: Self) {
        u8::MIN
    }

    fn zero() -> (r: Self) {
        0
    }

    fn one() -> (r: Self) {
        1
    }

    fn max_value() -> (r: Self) {
        u8::MAX
    }

    fn from_u8(value: u8) -> (r: Self) {
        value as u8
    }

    fn from_str_radix(str: &str, radix: u32) -> (r: Result<Self, ()>) {
        match parse_radix(str.as_bytes(), radix, u8::MAX as u64) {
            Some(value) => Ok(value as u8),
            None => Err(()),
        }
    }

    fn as_u8_array(&self) -> (r: CellBytes) {
        CellBytes::of(*self as u64, 1)
    }

    fn less_than(self, other: Self) -> (r: bool) {
        self < other
    }

    fn same_as(self, other: Self) -> (r: bool) {
        self == other
    }

    fn plus(self, other: Self) -> (r: Self) {
        self + other
    }

    fn minus(self, other: Self) -> (r: Self) {
        self - other
    }
}

impl CellType for u16 {
    open spec fn value(self) -> nat {
        self as nat
    }

    open spec fn top() -> nat {
        u16::MAX as nat
    }

    open spec fn width() -> nat {
        2
    }

    proof fn lemma_value_in_range(self) {
    }

    proof fn lemma_value_decides(self, other: Self) {
    }

    fn min_value() -> (r: Self) {
        u16::MIN
    }

    fn zero() -> (r: Self) {
        0
    }

    fn one() -> (r: Self) {
        1
    }

    fn max_value() -> (r: Self) {
        u16::MAX
    }

    fn from_u8(value: u8) -> (r: Self) {
        value as u16
    }

    fn from_str_radix(str: &str, radix: u32) -> (r: Result<Self, ()>) {
        match parse_radix(str.as_bytes(), radix, u16::MAX as u64) {
            Some(value) => Ok(value as u16),
            None => Err(()),
        }
    }

    fn as_u8_array(&self) -> (r: CellBytes) {
        CellBytes::of(*self as u64, 2)
    }

    fn less_than(self, other: Self) -> (r: bool) {
        self < other
    }

    fn same_as(self, other: Self) -> (r: bool) {
        self == other
    }

    fn plus(self, other: Self) -> (r: Self) {
        self + other
    }

    fn minus(self, other: Self) -> (r: Self) {
        self - other
    }
}

impl CellType for u32 {
    open spec fn value(self) -> nat {
        self as nat
    }

    open spec fn top() -> nat {
        u32::MAX as nat
    }

    open spec fn width() -> nat {
        4
    }

    proof fn lemma_value_in_range(self) {
    }

    proof fn lemma_value_decides(self, other: Self) {
    }

    fn min_value() -> (r: Self) {
        u32::MIN
    }

    fn zero() -> (r: Self) {
        0
    }

    fn one() -> (r: Self) {
        1
    }

    fn max_value() -> (r: Self) {
        u32::MAX
    }

    fn from_u8(value: u8) -> (r: Self) {
        value as u32
    }

    fn from_str_radix(str: &str, radix: u32) -> (r: Result<Self, ()>) {
        match parse_radix(str.as_bytes(), radix, u32::MAX as u64) {
            Some(value) => Ok(value as u32),
            None => Err(()),
        }
    }

    fn as_u8_array(&self) -> (r: CellBytes) {
        CellBytes::of(*self as u64, 4)
    }

    fn less_than(self, other: Self) -> (r: bool) {
        self < other
    }

    fn same_as(self, other: Self) -> (r: bool) {
        self == other
    }

    fn plus(self, other: Self) -> (r: Self) {
        self + other
    }

    fn minus(self, other: Self) -> (r: Self) {
        self - other
    }
}

impl CellType for u64 {
    open spec fn value(self) -> nat {
        self as nat
    }

    open spec fn top() -> nat {
        u64::MAX as nat
    }

    open spec fn width() -> nat {
        8
    }

    proof fn lemma_value_in_range(self) {
    }

    proof fn lemma_value_decides(self, other: Self) {
    }

    fn min_value() -> (r: Self) {
        u64::MIN
    }

    fn zero() -> (r: Self) {
        0
    }

    fn one() -> (r: Self) {
        1
    }

    fn max_value() -> (r: Self) {
        u64::MAX
    }

    fn from_u8(value: u8) -> (r: Self) {
        value as u64
    }

    fn from_str_radix(str: &str, radix: u32) -> (r: Result<Self, ()>) {
        match parse_radix(str.as_bytes(), radix, u64::MAX as u64) {
            Some(value) => Ok(value as u64),
            None => Err(()),
        }
    }

    fn as_u8_array(&self) -> (r: CellBytes) {
        CellBytes::of(*self as u64, 8)
    }

    fn less_than(self, other: Self) -> (r: bool) {
        self < other
    }

    fn same_as(self, other: Self) -> (r: bool) {
        self == other
    }

    fn plus(self, other: Self) -> (r: Self) {
        self + other
    }

    fn minus(self, other: Self) -> (r: Self) {
        self - other
    }
}

impl CellType for usize {
    open spec fn value(self) -> nat {
        self as nat
    }

    open spec fn top() -> nat {
        usize::MAX as nat
    }

    open spec fn width() -> nat {
        (usize::BITS / 8) as nat
    }

    proof fn lemma_value_in_range(self) {
    }

    proof fn lemma_value_decides(self, other: Self) {
    }

    fn min_value() -> (r: Self) {
        usize::MIN
    }

    fn zero() -> (r: Self) {
        0
    }

    fn one() -> (r: Self) {
        1
    }

    fn max_value() -> (r: Self) {
        usize::MAX
    }

    fn from_u8(value: u8) -> (r: Self) {
        value as usize
    }

    fn from_str_radix(str: &str, radix: u32) -> (r: Result<Self, ()>) {
        match parse_radix(str.as_bytes(), radix, usize::MAX as u64) {
            Some(value) => Ok(value as usize),
            None => Err(()),
        }
    }

    fn as_u8_array(&self) -> (r: CellBytes) {
        CellBytes::of(*self as u64, (usize::BITS / 8) as usize)
    }

    fn less_than(self, other: Self) -> (r: bool) {
        self < other
    }

    fn same_as(self, other: Self) -> (r: bool) {
        self == other
    }

    fn plus(self, other: Self) -> (r: Self) {
        self + other
    }

    fn minus(self, other: Self) -> (r: Self) {
        self - other
    }
}

/// What a move of the data pointer does when it would leave the range of
/// addresses.
#[derive(Copy, Clone, PartialEq, Eq, Debug, Structural)]
pub enum PointerPolicy {
    /// The step is refused and nothing changes.
    Fail,
    /// The pointer wraps round to the other end of the address range.
    Wrap,
}

/// The result of adding one to a cell that lives in the band `[min, max]`:
/// a cell at (or beyond) `max` starts again at `min`.
pub open spec fn incremented(v: nat, min: nat, max: nat) -> nat {
    if v >= max {
        min
    } else {
        v + 1
    }
}

/// The result of taking one from a cell that lives in the band `[min, max]`:
/// a cell at (or below) `min` starts again at `max`.
pub open spec fn decremented(v: nat, min: nat, max: nat) -> nat {
    if v <= min {
        max
    } else {
        (v - 1) as nat
    }
}

/// `v` after `n` increments in the band `[min, max]`.
pub open spec fn incremented_times(v: nat, min: nat, max: nat, n: nat) -> nat
    decreases n,
{
    if n == 0 {
        v
    } else {
        incremented(incremented_times(v, min, max, (n - 1) as nat), min, max)
    }
}

/// How far `v` lies outside the band `[min, max]`.
pub open spec fn band_distance(v: nat, min: nat, max: nat) -> nat {
    if v > max {
        (v - max) as nat
    } else if v < min {
        (min - v) as nat
    } else {
        0
    }
}

/// `v` brought into the band `[min, max]` by taking away, or adding, the
/// band's width `max - min` as often as needed.
///
/// A band of one value takes every number to that value, and where `min`
/// exceeds `max` there is no band and the number stays as it is.
pub open spec fn clamped(v: nat, min: nat, max: nat) -> nat
    decreases band_distance(v, min, max),
{
    if min > max {
        v
    } else if min == max {
        min
    } else if v > max {
        clamped((v - (max - min)) as nat, min, max)
    } else if v < min {
        clamped((v + (max - min)) as nat, min, max)
    } else {
        v
    }
}

/// The row of cells `cells` once it reaches address `i`: shorter rows are
/// filled up with zeros, longer ones stay as they are.
pub open spec fn grown(cells: Seq<nat>, i: int) -> Seq<nat> {
    if i < cells.len() {
        cells
    } else {
        cells + Seq::new((i + 1 - cells.len()) as nat, |k: int| 0nat)
    }
}

/// Counting up through the whole band from its lowest value comes back to
/// the lowest value: `max - min + 1` increments of `min` give `min`.
pub proof fn lemma_increment_wraps_band(min: nat, max: nat)
    requires
        min <= max,
    ensures
        incremented_times(min, min, max, (max - min + 1) as nat) == min,
{
    lemma_increment_climbs(min, max, (max - min) as nat);
}

/// Up to the top of the band, `k` increments of `min` give `min + k`.
pub proof fn lemma_increment_climbs(min: nat, max: nat, k: nat)
    requires
        min + k <= max,
    ensures
        incremented_times(min, min, max, k) == min + k,
    decreases k,
{
    if k > 0 {
        lemma_increment_climbs(min, max, (k - 1) as nat);
    }
}

/// A clamped number lies in the band, whenever there is one.
pub proof fn lemma_clamped_in_band(v: nat, min: nat, max: nat)
    requires
        min <= max,
    ensures
        min <= clamped(v, min, max) <= max,
    decreases band_distance(v, min, max),
{
    if min < max {
        if v > max {
            lemma_clamped_in_band((v - (max - min)) as nat, min, max);
        } else if v < min {
            lemma_clamped_in_band((v + (max - min)) as nat, min, max);
        }
    }
}

/// Numbers already in the band are left alone.
pub proof fn lemma_clamped_keeps_band(v: nat, min: nat, max: nat)
    requires
        min <= v <= max,
    ensures
        clamped(v, min, max) == v,
{
}

/// Clamping twice gives what clamping once gives.
pub proof fn lemma_clamped_idempotent(v: nat, min: nat, max: nat)
    ensures
        clamped(clamped(v, min, max), min, max) == clamped(v, min, max),
{
    if min <= max {
        lemma_clamped_in_band(v, min, max);
    }
}

/// The memory of the machine: a growable row of cells, the data pointer and
/// the band `[min_cell_value, max_cell_value]` that cell arithmetic wraps in.
///
/// The memory is unbounded in principle: an address past the end of `data`
/// reads as zero, and a write to it makes `data` grow.
pub struct RuntimeContext<T: CellType> {
    pub data: Vec<T>,
    pub data_pointer: usize,
    pub min_cell_value: T,
    pub max_cell_value: T,
    pub pointer_policy: PointerPolicy,
}

/// The memory of the classic machine, whose cells are bytes.
pub type RuntimeContextU8 = RuntimeContext<u8>;

/// A memory with wide cells, for bands beyond a byte.
pub type RuntimeContextU64 = RuntimeContext<u64>;

impl<T: CellType> RuntimeContext<T> {
    /// The numbers held by the cells that exist.
    pub open spec fn values(&self) -> Seq<nat> {
        self.data@.map_values(|c: T| c.value())
    }

    /// The number held at address `i`: cells past the end hold zero.
    pub open spec fn cell(&self, i: int) -> nat {
        if 0 <= i < self.values().len() {
            self.values()[i]
        } else {
            0
        }
    }

    /// The lower end of the band.
    pub open spec fn band_min(&self) -> nat {
        self.min_cell_value.value()
    }

    /// The upper end of the band.
    pub open spec fn band_max(&self) -> nat {
        self.max_cell_value.value()
    }

    /// Everything but the cells is the same in `self` and `other`.
    pub open spec fn same_settings(&self, other: &Self) -> bool {
        &&& self.data_pointer == other.data_pointer
        &&& self.min_cell_value == other.min_cell_value
        &&& self.max_cell_value == other.max_cell_value
        &&& self.pointer_policy == other.pointer_policy
    }

    /// An empty memory with the pointer at address zero and the widest band
    /// the cell type allows. Room is set aside for thirty thousand cells, the
    /// customary size of such a machine's memory.
    pub fn new() -> (context: Self)
        ensures
            context.data@.len() == 0,
            context.data_pointer == 0,
            context.band_min() == 0,
            context.band_max() == T::top(),
            context.pointer_policy == PointerPolicy::Fail,
    {
        Self {
            data: Vec::with_capacity(30000),
            data_pointer: 0,
            min_cell_value: T::min_value(),
            max_cell_value: T::max_value(),
            pointer_policy: PointerPolicy::Fail,
        }
    }

    /// Makes the row of cells reach address `i`, filling up with zeros.
    fn grow_to(&mut self, i: usize)
        requires
            i < usize::MAX,
        ensures
            final(self).values() == grown(old(self).values(), i as int),
            final(self).same_settings(old(self)),
            i < final(self).data@.len(),
            forall|j: int| 0 <= j < old(self).data@.len() ==> final(self).data@[j] == old(self).data@[j],
    {
        while self.data.len() <= i
            invariant
                i < usize::MAX,
                self.same_settings(old(self)),
                old(self).data@.len() <= self.data@.len(),
                self.data@.len() <= old(self).data@.len() || self.data@.len() <= i + 1,
                forall|j: int| 0 <= j < old(self).data@.len() ==> self.data@[j] == old(self).data@[j],
                forall|j: int| old(self).data@.len() <= j < self.data@.len() ==> self.data@[j].value() == 0,
            decreases i + 1 - self.data.len(),
        {
            self.data.push(T::zero());
        }
        assert(self.values() =~= grown(old(self).values(), i as int));
    }

    /// A handle on the cell at address `i`; the row of cells grows to reach
    /// it where it has to.
    pub fn get_cell(&mut self, i: usize) -> (cell: &mut T)
        requires
            i < usize::MAX,
        ensures
            cell.value() == old(self).cell(i as int),
            final(self).values() == grown(old(self).values(), i as int).update(
                i as int,
                final(cell).value(),
            ),
            final(self).same_settings(old(self)),
    {
        self.grow_to(i);
        proof {
            let before = old(self).values();
            assert(self.values()[i as int] == self.data@[i as int].value());
            if i < before.len() {
                assert(before[i as int] == old(self).data@[i as int].value());
            } else {
                assert(grown(before, i as int)[i as int] == 0);
            }
        }
        &mut self.data[i]
    }

    /// The value at address `i`; an address past the end reads as zero and
    /// the row of cells does not grow.
    pub fn read_cell(&self, i: usize) -> (value: T)
        ensures
            value.value() == self.cell(i as int),
    {
        if self.data.len() <= i {
            return T::zero();
        }
        self.data[i]
    }

    /// Adds one to the cell at address `i`, wrapping in the band: a cell at
    /// the band's upper end starts again at its lower end.
    pub fn increment_cell(&mut self, i: usize)
        requires
            i < usize::MAX,
        ensures
            final(self).values() == grown(old(self).values(), i as int).update(
                i as int,
                incremented(old(self).cell(i as int), old(self).band_min(), old(self).band_max()),
            ),
            final(self).same_settings(old(self)),
    {
        let max = self.max_cell_value;
        let min = self.min_cell_value;
        let cell = self.get_cell(i);
        if !cell.less_than(max) {
            *cell = min;
        } else {
            proof {
                max.lemma_value_in_range();
            }
            *cell = cell.plus(T::one());
        }
    }

    /// Takes one from the cell at address `i`, wrapping in the band: a cell
    /// at the band's lower end starts again at its upper end.
    pub fn decrement_cell(&mut self, i: usize)
        requires
            i < usize::MAX,
        ensures
            final(self).values() == grown(old(self).values(), i as int).update(
                i as int,
                decremented(old(self).cell(i as int), old(self).band_min(), old(self).band_max()),
            ),
            final(self).same_settings(old(self)),
    {
        let max = self.max_cell_value;
        let min = self.min_cell_value;
        let cell = self.get_cell(i);
        if !min.less_than(*cell) {
            *cell = max;
        } else {
            *cell = cell.minus(T::one());
        }
    }

    /// Brings the cell at address `i` back into the band after a value was
    /// written to it from outside: the band's width is taken away, or added,
    /// until the value lies in the band.
    pub fn fix_cell(&mut self, i: usize)
        requires
            i < usize::MAX,
        ensures
            final(self).values() == grown(old(self).values(), i as int).update(
                i as int,
                clamped(old(self).cell(i as int), old(self).band_min(), old(self).band_max()),
            ),
            final(self).same_settings(old(self)),
    {
        let max = self.max_cell_value;
        let min = self.min_cell_value;
        let cell = self.get_cell(i);
        let mut value = *cell;
        let ghost start = value.value();
        if min.less_than(max) {
            let diff = max.minus(min);
            while max.less_than(value)
                invariant
                    min.value() < max.value(),
                    diff.value() == max.value() - min.value(),
                    clamped(value.value(), min.value(), max.value()) == clamped(
                        start,
                        min.value(),
                        max.value(),
                    ),
                decreases value.value(),
            {
                value = value.minus(diff);
            }
            while value.less_than(min)
                invariant
                    min.value() < max.value(),
                    diff.value() == max.value() - min.value(),
                    value.value() <= max.value(),
                    clamped(value.value(), min.value(), max.value()) == clamped(
                        start,
                        min.value(),
                        max.value(),
                    ),
                decreases band_distance(value.value(), min.value(), max.value()),
            {
                proof {
                    max.lemma_value_in_range();
                }
                value = value.plus(diff);
            }
        } else if min.same_as(max) {
            value = min;
        }
        *cell = value;
    }
}

} // verus!
