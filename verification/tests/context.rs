use bfmachine::runtime::context::{CellType, RuntimeContext};

#[test]
fn new_context_is_empty_with_the_widest_band() {
    let context = RuntimeContext::<u8>::new();
    assert!(context.data.is_empty());
    assert_eq!(context.data_pointer, 0);
    assert_eq!(context.min_cell_value, 0);
    assert_eq!(context.max_cell_value, 255);
}

#[test]
fn read_past_the_end_is_zero_and_does_not_grow() {
    let context = RuntimeContext::<u16>::new();
    assert_eq!(context.read_cell(10), 0);
    assert_eq!(context.read_cell(usize::MAX), 0);
    assert!(context.data.is_empty());
}

#[test]
fn get_cell_grows_and_fills_with_zero() {
    let mut context = RuntimeContext::<u32>::new();
    *context.get_cell(3) = 9;
    assert_eq!(context.data, vec![0, 0, 0, 9]);
    *context.get_cell(1) = 4;
    assert_eq!(context.data, vec![0, 4, 0, 9]);
    assert_eq!(context.read_cell(3), 9);
}

#[test]
fn increment_wraps_at_the_band() {
    let mut context = RuntimeContext::<u64>::new();
    context.min_cell_value = 3;
    context.max_cell_value = 5;
    *context.get_cell(0) = 4;
    context.increment_cell(0);
    assert_eq!(context.read_cell(0), 5);
    context.increment_cell(0);
    assert_eq!(context.read_cell(0), 3);
}

#[test]
fn decrement_wraps_at_the_band() {
    let mut context = RuntimeContext::<u64>::new();
    context.min_cell_value = 3;
    context.max_cell_value = 5;
    *context.get_cell(2) = 4;
    context.decrement_cell(2);
    assert_eq!(context.read_cell(2), 3);
    context.decrement_cell(2);
    assert_eq!(context.read_cell(2), 5);
    assert_eq!(context.data.len(), 3);
}

#[test]
fn increment_of_a_fresh_cell_in_a_byte_wraps_at_255() {
    let mut context = RuntimeContext::<u8>::new();
    for _ in 0..255 {
        context.increment_cell(0);
    }
    assert_eq!(context.read_cell(0), 255);
    context.increment_cell(0);
    assert_eq!(context.read_cell(0), 0);
    context.decrement_cell(0);
    assert_eq!(context.read_cell(0), 255);
}

#[test]
fn band_many_increments_from_the_lower_end_come_back_to_it() {
    let mut context = RuntimeContext::<u64>::new();
    context.min_cell_value = 10;
    context.max_cell_value = 20;
    *context.get_cell(0) = 10;
    for _ in 0..11 {
        context.increment_cell(0);
    }
    assert_eq!(context.read_cell(0), 10);
}

#[test]
fn fix_cell_takes_the_width_away_until_in_band() {
    let mut context = RuntimeContext::<u64>::new();
    context.min_cell_value = 0;
    context.max_cell_value = 255;
    *context.get_cell(0) = 256;
    context.fix_cell(0);
    assert_eq!(context.read_cell(0), 1);
    *context.get_cell(0) = 1000;
    context.fix_cell(0);
    assert_eq!(context.read_cell(0), 235);
    *context.get_cell(0) = 510;
    context.fix_cell(0);
    assert_eq!(context.read_cell(0), 255);
}

#[test]
fn fix_cell_adds_the_width_until_in_band() {
    let mut context = RuntimeContext::<u64>::new();
    context.min_cell_value = 100;
    context.max_cell_value = 130;
    *context.get_cell(1) = 5;
    context.fix_cell(1);
    assert_eq!(context.read_cell(1), 125);
    *context.get_cell(1) = 100;
    context.fix_cell(1);
    assert_eq!(context.read_cell(1), 100);
}

#[test]
fn fix_cell_twice_is_fix_cell_once() {
    for start in [0u64, 5, 99, 100, 117, 130, 131, 160, 161, 5000] {
        let mut context = RuntimeContext::<u64>::new();
        context.min_cell_value = 100;
        context.max_cell_value = 130;
        *context.get_cell(0) = start;
        context.fix_cell(0);
        let once = context.read_cell(0);
        assert!((100..=130).contains(&once));
        context.fix_cell(0);
        assert_eq!(context.read_cell(0), once);
    }
}

#[test]
fn fix_cell_leaves_values_in_band_alone() {
    let mut context = RuntimeContext::<u8>::new();
    context.min_cell_value = 10;
    context.max_cell_value = 20;
    for value in 10..=20u8 {
        *context.get_cell(0) = value;
        context.fix_cell(0);
        assert_eq!(context.read_cell(0), value);
    }
}

#[test]
fn fix_cell_in_a_band_of_one_value_gives_that_value() {
    let mut context = RuntimeContext::<u8>::new();
    context.min_cell_value = 7;
    context.max_cell_value = 7;
    *context.get_cell(0) = 200;
    context.fix_cell(0);
    assert_eq!(context.read_cell(0), 7);
}

#[test]
fn fix_cell_without_a_band_leaves_the_cell() {
    let mut context = RuntimeContext::<u8>::new();
    context.min_cell_value = 9;
    context.max_cell_value = 3;
    *context.get_cell(0) = 200;
    context.fix_cell(0);
    assert_eq!(context.read_cell(0), 200);
}

#[test]
fn cell_types_know_their_limits() {
    assert_eq!(<u8 as CellType>::max_value(), u8::MAX);
    assert_eq!(<u16 as CellType>::max_value(), u16::MAX);
    assert_eq!(<u32 as CellType>::max_value(), u32::MAX);
    assert_eq!(<u64 as CellType>::max_value(), u64::MAX);
    assert_eq!(<usize as CellType>::max_value(), usize::MAX);
    assert_eq!(<u64 as CellType>::min_value(), 0);
    assert_eq!(<u64 as CellType>::zero(), 0);
    assert_eq!(<u64 as CellType>::one(), 1);
    assert_eq!(<u32 as CellType>::from_u8(200), 200);
}

#[test]
fn from_str_radix_agrees_with_the_standard_library() {
    let texts = [
        "", "+", "-", "0", "7", "+7", "-7", "007", "255", "256", "65535", "65536", "ff", "FF",
        "fF", "g", "z", "Z", "1_000", " 1", "1 ", "4294967295", "4294967296",
        "18446744073709551615", "18446744073709551616", "99999999999999999999999", "++1", "+-1",
        "1+", "0x10", "101", "777", "é", "1é",
    ];
    for radix in [2u32, 8, 10, 16, 36] {
        for text in texts {
            assert_eq!(
                <u8 as CellType>::from_str_radix(text, radix),
                u8::from_str_radix(text, radix).map_err(|_| ()),
                "u8 {text:?} in {radix}"
            );
            assert_eq!(
                <u16 as CellType>::from_str_radix(text, radix),
                u16::from_str_radix(text, radix).map_err(|_| ()),
                "u16 {text:?} in {radix}"
            );
            assert_eq!(
                <u32 as CellType>::from_str_radix(text, radix),
                u32::from_str_radix(text, radix).map_err(|_| ()),
                "u32 {text:?} in {radix}"
            );
            assert_eq!(
                <u64 as CellType>::from_str_radix(text, radix),
                u64::from_str_radix(text, radix).map_err(|_| ()),
                "u64 {text:?} in {radix}"
            );
            assert_eq!(
                <usize as CellType>::from_str_radix(text, radix),
                usize::from_str_radix(text, radix).map_err(|_| ()),
                "usize {text:?} in {radix}"
            );
        }
    }
}
