use icsprism::sanity::{
    bool_field_bytes, check_dimensions, check_field_size, check_input_flags, check_read_size,
    check_restore, check_run, check_scan, check_set_status, check_step, decode_field_bool,
    decode_field_i16, fail, find_field, i16_field_bytes, require, run_input, sanity_summary,
};

#[test]
fn require_and_fail() {
    assert_eq!(require(true, "x".to_string()), Ok(()));
    assert_eq!(require(false, "x".to_string()), Err("x".to_string()));
    assert_eq!(fail::<u32>("nope".to_string()), Err("nope".to_string()));
}

#[test]
fn dimensions_are_checked_in_order() {
    assert_eq!(check_dimensions(7, 4, 10, 24), Ok(()));
    assert_eq!(check_dimensions(0, 0, 0, 0), Err("prism_field_count must be > 0".to_string()));
    assert_eq!(check_dimensions(1, 3, 0, 0), Err("prism_input_size too small: 3".to_string()));
    assert_eq!(check_dimensions(1, 4, 0, 0), Err("prism_state_size must be > 0".to_string()));
    assert_eq!(check_dimensions(1, 4, 1, 0), Err("prism_struct_size must be > 0".to_string()));
}

#[test]
fn field_lookup_by_name() {
    let names = vec![Some("Delta".to_string()), Some("Reset".to_string()), None, Some("Armed".to_string())];
    assert_eq!(find_field(&names, "Reset"), Ok(1));
    assert_eq!(find_field(&names, "Delta"), Ok(0));
    assert_eq!(find_field(&names, "Armed"), Err("prism_field_name(2) returned null".to_string()));
    let names = vec![Some("Delta".to_string())];
    assert_eq!(find_field(&names, "Enable"), Err("field not found: Enable".to_string()));
}

#[test]
fn input_flags_must_all_be_set() {
    assert_eq!(check_input_flags(1, 1, 1), Ok(()));
    assert_eq!(
        check_input_flags(1, 0, 1),
        Err("expected Delta/Reset/Enable to be input fields".to_string())
    );
}

#[test]
fn field_writes_and_reads() {
    assert_eq!(check_field_size(3, 2, 2), Ok(()));
    assert_eq!(
        check_field_size(3, 1, 2),
        Err("field size mismatch at idx=3: expected 1, got 2".to_string())
    );
    assert_eq!(check_set_status(0, 1), Ok(()));
    assert_eq!(check_set_status(5, 0), Err("prism_set_field failed at idx=5".to_string()));
    assert_eq!(check_read_size(2, 2, 2), Ok(()));
    assert_eq!(
        check_read_size(2, 1, 2),
        Err("prism_get_field size mismatch at idx=2: got 1, expected 2".to_string())
    );
    assert_eq!(i16_field_bytes(4), vec![4, 0]);
    assert_eq!(i16_field_bytes(-2), vec![0xfe, 0xff]);
    assert_eq!(bool_field_bytes(true), vec![1]);
    assert_eq!(bool_field_bytes(false), vec![0]);
    assert_eq!(decode_field_i16(1, &[0x0c, 0x00]), Ok(12));
    assert_eq!(decode_field_i16(1, &[0xff, 0xff]), Ok(-1));
    assert_eq!(decode_field_i16(1, &[1]), Err("field idx=1 is not i16-sized".to_string()));
    assert_eq!(decode_field_bool(6, &[2]), Ok(true));
    assert_eq!(decode_field_bool(6, &[0]), Ok(false));
    assert_eq!(decode_field_bool(6, &[0, 0]), Err("field idx=6 is not bool-sized".to_string()));
}

#[test]
fn behaviour_checks() {
    assert_eq!(check_scan(3, 12, 1, true), Ok(()));
    assert_eq!(check_scan(2, 12, 1, true), Err("scan cycle failed: CycleNum=2, expected 3".to_string()));
    assert_eq!(check_scan(3, -8, 1, true), Err("accumulator failed: Accumulator=-8, expected 12".to_string()));
    assert_eq!(check_scan(3, 12, 0, true), Err("edge tracking failed: EdgeCount=0, expected 1".to_string()));
    assert_eq!(check_scan(3, 12, 1, false), Err("Armed expected true after 3 cycles at Delta=4".to_string()));
    assert_eq!(check_step(4), Ok(()));
    assert_eq!(check_step(3), Err("step progression failed: CycleNum=3, expected 4".to_string()));
    assert_eq!(check_restore(3, 12), Ok(()));
    assert_eq!(check_restore(4, 12), Err("state restore failed for CycleNum: 4, expected 3".to_string()));
    assert_eq!(check_restore(3, 13), Err("state restore failed for Accumulator: 13, expected 12".to_string()));
    assert_eq!(check_run(1, 4), Ok(()));
    assert_eq!(check_run(0, 4), Err("prism_run cycle failed: CycleNum=0, expected 1".to_string()));
    assert_eq!(check_run(1, 0), Err("prism_run input mapping failed: Accumulator=0, expected 4".to_string()));
    assert_eq!(run_input(), vec![4, 0, 0, 1]);
}

#[test]
fn summary_line() {
    assert_eq!(
        sanity_summary(7, 4, 10, 24),
        "[prism-sanity] fields=7 input_size=4 state_size=10 struct_size=24"
    );
}
