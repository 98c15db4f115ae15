use icsprism::plc_image::{
    fuzz_instance, i16_mismatch, i32_mismatch, read_buf, read_i16, read_i32, read_i8, set_inputs,
    state_summary, write_i16, write_i8, OFFSET_A, OFFSET_B, OFFSET_BUF, OFFSET_C_TOTALCALLS,
    OFFSET_C_VALUE, OFFSET_CYCLENUM, OFFSET_FLAG, OFFSET_INDEX, OFFSET_PRODUCT, OFFSET_SUM,
    STRUCT_BYTES,
};

#[test]
fn offsets_follow_the_layout() {
    assert_eq!(STRUCT_BYTES, 72);
    assert_eq!(OFFSET_C_VALUE, 60);
    assert_eq!(OFFSET_C_TOTALCALLS, 62);
    assert_eq!(OFFSET_CYCLENUM, 64);
}

#[test]
fn little_endian_reads() {
    let mem = vec![0xff, 0x7f, 0x00, 0x80, 0x78, 0x56, 0x34, 0x12, 0xfe];
    assert_eq!(read_i8(&mem, 8), -2);
    assert_eq!(read_i16(&mem, 0), 32767);
    assert_eq!(read_i16(&mem, 2), -32768);
    assert_eq!(read_i32(&mem, 4), 0x1234_5678);
}

#[test]
fn writes_round_trip() {
    let mut mem = vec![0u8; 8];
    write_i16(&mut mem, 2, -2);
    write_i8(&mut mem, 5, -1);
    assert_eq!(mem, vec![0, 0, 0xfe, 0xff, 0, 0xff, 0, 0]);
    assert_eq!(read_i16(&mem, 2), -2);
    assert_eq!(read_i8(&mem, 5), -1);
}

#[test]
fn set_inputs_places_the_four_inputs() {
    let mut mem = vec![0u8; STRUCT_BYTES];
    set_inputs(&mut mem, 3, -4, true, 2);
    assert_eq!(read_i16(&mem, OFFSET_A), 3);
    assert_eq!(read_i16(&mem, OFFSET_B), -4);
    assert_eq!(read_i8(&mem, OFFSET_FLAG), 1);
    assert_eq!(read_i16(&mem, OFFSET_INDEX), 2);
    assert_eq!(&mem[8..], &vec![0u8; 64][..]);
}

#[test]
fn buf_elements_are_two_bytes_apart() {
    let mut mem = vec![0u8; STRUCT_BYTES];
    write_i16(&mut mem, OFFSET_BUF + 2 * 5, 10);
    write_i16(&mut mem, OFFSET_BUF + 2 * 15, -7);
    assert_eq!(read_buf(&mem, 5), 10);
    assert_eq!(read_buf(&mem, 15), -7);
    assert_eq!(read_buf(&mem, 4), 0);
}

#[test]
fn summary_lists_inputs_outputs_buf_and_counter() {
    let mut mem = vec![0u8; STRUCT_BYTES];
    set_inputs(&mut mem, 3, 4, false, 2);
    write_i16(&mut mem, OFFSET_SUM, 7);
    mem[OFFSET_PRODUCT] = 12;
    write_i16(&mut mem, OFFSET_BUF + 4, 7);
    write_i16(&mut mem, OFFSET_CYCLENUM, 1);
    write_i16(&mut mem, OFFSET_C_VALUE, 3);
    write_i16(&mut mem, OFFSET_C_TOTALCALLS, 1);
    let s = state_summary(&mem, "after cycle 1");
    assert_eq!(
        s,
        "--- after cycle 1 ---\n  Inputs : A=3 B=4 Flag=0 Index=2\n  Outputs: Sum=7 Product=12 CycleNum=1\n  Buf    : [0, 0, 7, 0, 0, 0, 0, 0, 0, 0, 0, 0, 0, 0, 0, 0]\n  Counter: Value=3 TotalCalls=1\n"
    );
}

#[test]
fn mismatch_messages() {
    let mut mem = vec![0u8; 8];
    write_i16(&mut mem, 0, 7);
    assert_eq!(i16_mismatch(&mem, 0, 7, "Sum"), None);
    assert_eq!(i16_mismatch(&mem, 0, -3, "Sum"), Some("Sum: expected -3 got 7".to_string()));
    assert_eq!(i32_mismatch(&mem, 0, 7, "Product"), None);
    assert_eq!(i32_mismatch(&mem, 0, 12, "Product"), Some("Product: expected 12 got 7".to_string()));
}

#[test]
fn fuzz_instance_maps_the_first_seven_bytes() {
    assert_eq!(fuzz_instance(&[1, 2, 3, 4, 5, 6]), None);
    let m = fuzz_instance(&[1, 2, 3, 4, 5, 6, 7, 8]).unwrap();
    assert_eq!(m.len(), STRUCT_BYTES);
    assert_eq!(&m[..8], &[1, 2, 3, 4, 5, 0, 6, 7]);
    assert!(m[8..].iter().all(|&b| b == 0));
}
