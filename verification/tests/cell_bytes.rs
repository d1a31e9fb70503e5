use bfmachine::runtime::cell_bytes::CellBytes;
use bfmachine::runtime::context::CellType;

#[test]
fn cell_bytes_are_big_endian() {
    assert_eq!(0x12u8.as_u8_array().to_vec(), 0x12u8.to_be_bytes().to_vec());
    assert_eq!(0x1234u16.as_u8_array().to_vec(), vec![0x12, 0x34]);
    assert_eq!(0x0102_0304u32.as_u8_array().to_vec(), vec![1, 2, 3, 4]);
    assert_eq!(
        0x0102_0304_0506_0708u64.as_u8_array().to_vec(),
        vec![1, 2, 3, 4, 5, 6, 7, 8]
    );
    assert_eq!(u64::MAX.as_u8_array().to_vec(), vec![255; 8]);
    assert_eq!(0u32.as_u8_array().to_vec(), vec![0; 4]);
    assert_eq!(77usize.as_u8_array().to_vec(), 77usize.to_be_bytes().to_vec());
    assert_eq!(usize::MAX.as_u8_array().to_vec(), usize::MAX.to_be_bytes().to_vec());
}

#[test]
fn cell_bytes_of_takes_the_lowest_bytes() {
    assert_eq!(CellBytes::of(0x0102_0304, 2).to_vec(), vec![3, 4]);
    assert_eq!(CellBytes::of(0x0102_0304, 0).to_vec(), Vec::<u8>::new());
    assert_eq!(CellBytes::of(5, 8).to_vec(), vec![0, 0, 0, 0, 0, 0, 0, 5]);
}
