use icsprism::state_hash::{
    compute_bucket, i16_from_le, i32_from_le, i8_from_le, parse_state_hash_config,
    read_i32_from_state, snapshot_quality, BucketScheme, StateHashConfigRaw, StateHashField,
    StateHashFieldRaw, StateTracker, SubAccumulatorField, STATE_MAP_SIZE,
};

fn raw(name: &str, scheme: &str, buckets: usize, hwm: bool) -> StateHashFieldRaw {
    StateHashFieldRaw {
        name: name.to_string(),
        absolute_byte_offset: 0,
        byte_size: 2,
        bucket_scheme: scheme.to_string(),
        thresholds: vec![],
        bucket_count: buckets,
        high_watermark: hwm,
    }
}

fn field(scheme: BucketScheme, thresholds: Vec<i32>, buckets: usize, offset: usize, hwm: bool, base: usize) -> StateHashField {
    StateHashField {
        name: "f".to_string(),
        absolute_byte_offset: offset,
        byte_size: 2,
        bucket_scheme: scheme,
        thresholds,
        bucket_count: buckets,
        high_watermark: hwm,
        shmem_base: base,
    }
}

#[test]
fn slots_are_laid_out_one_after_another() {
    let cfg = StateHashConfigRaw {
        program: "Main".to_string(),
        total_macro_states: 0,
        fields: vec![
            raw("a", "identity", 4, false),
            raw("b", "threshold_log2", 0, true),
            raw("c", "something", 2000, false),
            raw("d", "raw_capped", 3, false),
        ],
    };
    let fields = parse_state_hash_config(cfg);
    assert_eq!(fields.len(), 3);
    assert_eq!((fields[0].shmem_base, fields[0].bucket_count), (0, 4));
    assert_eq!(fields[0].bucket_scheme, BucketScheme::Identity);
    assert_eq!((fields[1].shmem_base, fields[1].bucket_count), (4, 1));
    assert_eq!(fields[1].bucket_scheme, BucketScheme::ThresholdLog2);
    assert_eq!((fields[2].shmem_base, fields[2].bucket_count), (5, STATE_MAP_SIZE - 5));
    assert_eq!(fields[2].bucket_scheme, BucketScheme::Binary);
}

#[test]
fn little_endian_integers() {
    assert_eq!(i8_from_le(0x80), -128);
    assert_eq!(i16_from_le(0x00, 0x80), -32768);
    assert_eq!(i16_from_le(0x34, 0x12), 0x1234);
    assert_eq!(i32_from_le(0xff, 0xff, 0xff, 0xff), -1);
    let buf = [0xfe, 0xff, 0x05, 0x00, 0x00, 0x00];
    assert_eq!(read_i32_from_state(&buf, 0, 1), -2);
    assert_eq!(read_i32_from_state(&buf, 0, 2), -2);
    assert_eq!(read_i32_from_state(&buf, 2, 4), 5);
    assert_eq!(read_i32_from_state(&buf, 4, 4), 0);
    assert_eq!(read_i32_from_state(&buf, 0, 3), 0);
    assert_eq!(read_i32_from_state(&buf, 0, 0), 0);
}

#[test]
fn bucket_schemes() {
    let id = field(BucketScheme::Identity, vec![10, 20, 10], 4, 0, false, 0);
    assert_eq!(compute_bucket(&id, 20), 1);
    assert_eq!(compute_bucket(&id, 10), 0);
    assert_eq!(compute_bucket(&id, 7), 3);
    let log = field(BucketScheme::ThresholdLog2, vec![1, 2, 4, 8], 3, 0, false, 0);
    assert_eq!(compute_bucket(&log, 0), 0);
    assert_eq!(compute_bucket(&log, 3), 2);
    assert_eq!(compute_bucket(&log, 100), 2);
    let fine = field(BucketScheme::ThresholdFine, vec![], 5, 0, false, 0);
    assert_eq!(compute_bucket(&fine, -3), 0);
    assert_eq!(compute_bucket(&fine, 3), 3);
    assert_eq!(compute_bucket(&fine, 30), 4);
    let bin = field(BucketScheme::Binary, vec![], 2, 0, false, 0);
    assert_eq!(compute_bucket(&bin, 5), 1);
}

#[test]
fn quality_prefers_sub_accumulators() {
    let snap = [3u8, 0, 0xff, 0xff, 9, 0];
    let sub = vec![
        SubAccumulatorField { name: "x".to_string(), byte_offset: 0, byte_size: 2 },
        SubAccumulatorField { name: "y".to_string(), byte_offset: 2, byte_size: 2 },
    ];
    let fields = vec![
        field(BucketScheme::Binary, vec![], 2, 0, true, 0),
        field(BucketScheme::Binary, vec![], 2, 4, true, 2),
        field(BucketScheme::Binary, vec![], 2, 2, true, 4),
    ];
    assert_eq!(snapshot_quality(&snap, &sub, &fields, 4), 3);
    assert_eq!(snapshot_quality(&snap, &[], &fields, 4), 3);
    assert_eq!(snapshot_quality(&snap, &[], &fields, 100), 12);
}

#[test]
fn tracker_keeps_high_watermarks_and_reports_slots() {
    let fields = vec![
        field(BucketScheme::RawCapped, vec![], 10, 0, true, 0),
        field(BucketScheme::RawCapped, vec![], 10, 2, false, 10),
        field(BucketScheme::RawCapped, vec![], 10, 4, false, 1020),
    ];
    let mut t = StateTracker::new(3);
    assert_eq!(t.values, vec![i32::MIN; 3]);
    assert_eq!(t.hit_slots(&fields, STATE_MAP_SIZE), Vec::<usize>::new());
    t.observe(&fields, &[7, 0, 5, 0, 8, 0]);
    t.observe(&fields, &[2, 0, 1, 0, 9, 0]);
    assert_eq!(t.values, vec![7, 1, 9]);
    assert_eq!(t.hit_slots(&fields, STATE_MAP_SIZE), vec![7, 11]);
}

#[test]
fn checked_quality_reports_overflow() {
    let snap = [0xff, 0xff, 0xff, 0x7f];
    let fields = vec![
        field(BucketScheme::Binary, vec![], 2, 0, true, 0),
    ];
    let mut f4 = fields[0].clone();
    f4.byte_size = 4;
    assert_eq!(icsprism::state_hash::snapshot_quality_checked(&snap, &[], &vec![f4.clone()], 100), Some(0x7fff_ffff));
    let big = vec![f4.clone(), f4.clone(), f4.clone()];
    assert_eq!(icsprism::state_hash::snapshot_quality_checked(&snap, &[], &big, 100), None);
    assert_eq!(icsprism::state_hash::snapshot_quality_checked(&snap, &[], &fields, 100), Some(0));
}
