use icsprism::go_explore::burst_runs;
use icsprism::fields::{FieldRole, FieldValueModel, InputFieldSpec};
use icsprism::go_explore::{burst_advance, checkpoint_route, fallback_stage, round_robin_repeats, CheckpointRoute};
use icsprism::go_explore::{
    best_bucket, checkpoint_report, chk_read_bucket, chk_read_gen, chk_read_stage,
    chk_read_stage_bucket, chk_read_stage_gen, chk_write_header, chk_write_stage_header,
    default_max_discriminant, filled_buckets, find_zone_idx, generate_frames, offer_checkpoint,
    primary_frame_plan, progress_report, rand_i16_in, write_i16_le, BurstBest, CheckpointTable, FieldRange,
    FrameSource, ProgressStage, StageRuntime, StageTrack, ZoneConstraint, STAGE_PRIMARY,
};

fn zone(id: usize, lo: i32, hi: i32, ranges: Vec<(&str, i16, i16)>) -> ZoneConstraint {
    ZoneConstraint {
        id,
        lo,
        hi,
        field_constraints: ranges
            .into_iter()
            .map(|(n, lo, hi)| (n.to_string(), FieldRange { lo, hi }))
            .collect(),
    }
}

fn input(name: &str, offset: usize, size: usize, model: FieldValueModel, role: FieldRole) -> InputFieldSpec {
    InputFieldSpec { name: name.to_string(), offset, size, model, role }
}

#[test]
fn defaults() {
    assert_eq!(default_max_discriminant(), 255);
}

#[test]
fn zones_are_found_by_half_open_range() {
    let zones = vec![zone(0, 0, 10, vec![]), zone(1, 10, 20, vec![]), zone(2, 15, 30, vec![])];
    assert_eq!(find_zone_idx(&zones, 0), Some(0));
    assert_eq!(find_zone_idx(&zones, 10), Some(1));
    assert_eq!(find_zone_idx(&zones, 17), Some(1));
    assert_eq!(find_zone_idx(&zones, 25), Some(2));
    assert_eq!(find_zone_idx(&zones, 30), None);
}

#[test]
fn random_values_in_range() {
    assert_eq!(rand_i16_in(12345, 5, 5), 5);
    assert_eq!(rand_i16_in(12345, 7, 3), 7);
    assert_eq!(rand_i16_in(17, 0, 9), 7);
    assert_eq!(rand_i16_in(3, -2, 2), 1);
    assert_eq!(rand_i16_in(u64::MAX, i16::MIN, i16::MAX), i16::MIN + (u64::MAX % 32768) as i16);
}

#[test]
fn i16_writes_only_when_they_fit() {
    let mut buf = vec![0u8; 3];
    write_i16_le(&mut buf, 1, -2);
    assert_eq!(buf, vec![0, 0xfe, 0xff]);
    write_i16_le(&mut buf, 2, 5);
    assert_eq!(buf, vec![0, 0xfe, 0xff]);
}

#[test]
fn checkpoint_header_round_trip() {
    let mut h = vec![0xaau8; 8];
    chk_write_header(&mut h, 1, 0x1_0203, 0x0506);
    assert_eq!(&h[..5], &[1, 0x03, 0x02, 0x06, 0x05]);
    assert_eq!(chk_read_bucket(&h), 0x0203);
    assert_eq!(chk_read_gen(&h), 0x0506);
    assert_eq!(&h[5..], &[0xaa, 0xaa, 0xaa]);
}

#[test]
fn stage_header_round_trip() {
    let mut h = vec![0u8; 6];
    chk_write_stage_header(&mut h, 1, 3, 300, 7);
    assert_eq!(h, vec![1, 3, 44, 1, 7, 0]);
    assert_eq!(chk_read_stage(&h), 3);
    assert_eq!(chk_read_stage_bucket(&h), 300);
    assert_eq!(chk_read_stage_gen(&h), 7);
}

#[test]
fn checkpoint_reports_are_validated() {
    let mut h = vec![0u8; 5];
    chk_write_header(&mut h, 1, 12, 4);
    assert_eq!(checkpoint_report(&h, 4, 20, None), Some(12));
    assert_eq!(checkpoint_report(&h, 4, 20, Some(11)), Some(12));
    assert_eq!(checkpoint_report(&h, 4, 20, Some(12)), None);
    assert_eq!(checkpoint_report(&h, 5, 20, None), None);
    assert_eq!(checkpoint_report(&h, 4, 12, None), None);
    h[0] = 0;
    assert_eq!(checkpoint_report(&h, 4, 20, None), None);
}

#[test]
fn checkpoints_never_get_worse() {
    let mut table: CheckpointTable = vec![None; 4];
    assert_eq!(offer_checkpoint(&mut table, 2, vec![1], 5), Some(true));
    assert_eq!(offer_checkpoint(&mut table, 2, vec![2], 5), None);
    assert_eq!(offer_checkpoint(&mut table, 2, vec![3], 4), None);
    assert_eq!(offer_checkpoint(&mut table, 2, vec![4], 9), Some(false));
    assert_eq!(offer_checkpoint(&mut table, 4, vec![5], 9), None);
    assert_eq!(table[2], Some((vec![4], 9)));
    assert_eq!(offer_checkpoint(&mut table, 0, vec![6], 0), Some(true));
    assert_eq!(best_bucket(&table), Some(2));
    assert_eq!(filled_buckets(&table), vec![2, 0]);
    let empty: CheckpointTable = vec![None; 3];
    assert_eq!(best_bucket(&empty), None);
    assert_eq!(filled_buckets(&empty), Vec::<usize>::new());
}

#[test]
fn burst_phases_follow_the_zones() {
    let zones = vec![zone(0, 0, 10, vec![]), zone(1, 10, 20, vec![])];
    assert_eq!(primary_frame_plan(&zones, 3, 100), vec![(FrameSource::Zone(0), 100)]);
    assert_eq!(
        primary_frame_plan(&zones, 7, 100),
        vec![(FrameSource::Zone(0), 70), (FrameSource::Zone(1), 30)]
    );
    assert_eq!(primary_frame_plan(&zones, 18, 100), vec![(FrameSource::Zone(1), 100)]);
    assert_eq!(primary_frame_plan(&zones, 40, 10), vec![(FrameSource::Zone(1), 10)]);
    assert_eq!(primary_frame_plan(&[], 40, 10), vec![(FrameSource::Unconstrained, 10)]);
}

#[test]
fn frames_are_filled_field_by_field() {
    let fields = vec![
        input("Stop", 0, 1, FieldValueModel::Bool, FieldRole::Inhibitor),
        input("Speed", 1, 2, FieldValueModel::I16 { targets: vec![100, 200] }, FieldRole::Driver),
        input("Go", 3, 1, FieldValueModel::Bool, FieldRole::Activator),
        input("Level", 4, 2, FieldValueModel::Raw, FieldRole::Other),
        input("Far", 9, 1, FieldValueModel::Bool, FieldRole::Other),
    ];
    let ranges = vec![("Level".to_string(), FieldRange { lo: 10, hi: 20 })];
    // Speed: 5 % 100 < 80 picks target 1 % 2 = 200; Go: 3 % 2 = 1; Level: 10 + 14 % 11 = 13.
    let draws = vec![5, 1, 3, 14, 0, 0, 0, 0, 0, 0];
    let (bytes, used) = generate_frames(&ranges, &fields, 6, 1, &draws);
    assert_eq!(used, 4);
    assert_eq!(bytes, vec![0, 200, 0, 1, 13, 0]);
    // Speed: 90 % 100 >= 80 takes the next draw as a value.
    let draws = vec![90, 0xfffe, 2, 0, 0, 0, 0, 0, 0, 0];
    let (bytes, used) = generate_frames(&[], &fields, 6, 1, &draws);
    assert_eq!(used, 3);
    assert_eq!(bytes, vec![0, 0xfe, 0xff, 0, 0, 0]);
}

#[test]
fn stage_runtime_keeps_the_best_checkpoints() {
    let cfg = ProgressStage {
        stage: 1,
        name: "s".to_string(),
        discriminant_field: "Acc".to_string(),
        discriminant_offset: 2,
        discriminant_size: 2,
        max_value: 3,
        gate_field: "Gate".to_string(),
        gate_offset: 4,
        gate_size: 1,
        gate_eq_value: 1,
        burst_field_constraints: vec![],
    };
    let mut rt = StageRuntime::new(cfg);
    assert_eq!(rt.table.len(), 4);
    assert!(rt.best_entry().is_none());
    rt.update(1, vec![1]);
    rt.update(3, vec![3]);
    rt.update(9, vec![9]);
    let (b, snap, q) = rt.best_entry().unwrap();
    assert_eq!((b, snap.clone(), q), (3, vec![3], 3));
}

#[test]
fn burst_best_tracks_the_largest_discriminant() {
    let mut best = BurstBest::new(4);
    assert_eq!(best.reported_bucket(), None);
    best.observe(&[0, 0, 0, 0, 9], 0, 2);
    assert_eq!(best.reported_bucket(), None);
    best.observe(&[5, 0, 1, 2, 9], 0, 2);
    assert_eq!(best.max, 5);
    assert_eq!(best.snap, vec![5, 0, 1, 2]);
    best.observe(&[3, 0], 0, 2);
    assert_eq!(best.snap, vec![5, 0, 1, 2]);
    best.observe(&[7, 0], 0, 2);
    assert_eq!(best.snap, vec![7, 0, 1, 2]);
    assert_eq!(best.reported_bucket(), Some(7));
}

fn stage(offset: usize, gate_offset: usize, gate: i32) -> ProgressStage {
    ProgressStage {
        stage: 0,
        name: "s".to_string(),
        discriminant_field: "D".to_string(),
        discriminant_offset: offset,
        discriminant_size: 1,
        max_value: 10,
        gate_field: "G".to_string(),
        gate_offset,
        gate_size: 1,
        gate_eq_value: gate,
        burst_field_constraints: vec![],
    }
}

#[test]
fn stages_count_only_when_their_guard_holds() {
    let mut t = StageTrack::new(&stage(0, 1, 2), 3);
    t.observe(&[5, 1, 0]);
    assert_eq!(t.best.max, -1);
    t.observe(&[4, 2, 9]);
    assert_eq!((t.best.max, t.best.snap.clone()), (4, vec![4, 2, 9]));
    t.observe(&[3, 2, 0]);
    assert_eq!(t.best.max, 4);
}

#[test]
fn reports_prefer_the_main_discriminant_then_the_latest_stage() {
    let mut primary = BurstBest::new(2);
    let mut a = StageTrack::new(&stage(0, 1, 0), 2);
    let mut b = StageTrack::new(&stage(0, 1, 0), 2);
    assert_eq!(progress_report(&primary, &vec![]), None);
    a.observe(&[3, 0]);
    assert_eq!(progress_report(&primary, &vec![a, StageTrack::new(&stage(0, 1, 0), 2)]), Some((0, 3, Some(0))));
    let mut a = StageTrack::new(&stage(0, 1, 0), 2);
    a.observe(&[3, 0]);
    b.observe(&[2, 0]);
    assert_eq!(progress_report(&primary, &vec![a, b]), Some((1, 2, Some(1))));
    primary.observe(&[7, 0], 0, 1);
    assert_eq!(progress_report(&primary, &vec![]), Some((STAGE_PRIMARY, 7, None)));
}

#[test]
fn bursts_need_frames_and_a_whole_snapshot() {
    assert!(burst_runs(4, 10, 32, 32));
    assert!(!burst_runs(0, 10, 32, 32));
    assert!(!burst_runs(4, 0, 32, 32));
    assert!(!burst_runs(4, 10, 31, 32));
}

#[test]
fn routing_checkpoints_and_bursts() {
    let mut stages = vec![StageRuntime::new(stage(0, 1, 1)), StageRuntime::new(stage(0, 1, 1)), StageRuntime::new(stage(0, 1, 1))];
    assert_eq!(checkpoint_route(STAGE_PRIMARY, 40, &stages), CheckpointRoute::Primary);
    assert_eq!(checkpoint_route(1, 10, &stages), CheckpointRoute::Stage(1));
    assert_eq!(checkpoint_route(1, 11, &stages), CheckpointRoute::Ignore);
    assert_eq!(checkpoint_route(3, 0, &stages), CheckpointRoute::Ignore);

    assert_eq!(fallback_stage(&stages), None);
    stages[0].update(2, vec![1]);
    assert_eq!(fallback_stage(&stages), Some(0));
    stages[1].update(5, vec![2]);
    assert_eq!(fallback_stage(&stages), Some(1));

    assert!(burst_advance(1, 2, 2, 6, 5, 10));
    assert!(!burst_advance(0, 2, 2, 6, 5, 10));
    assert!(!burst_advance(1, 1, 2, 6, 5, 10));
    assert!(!burst_advance(1, 2, 2, 5, 5, 10));
    assert!(!burst_advance(1, 2, 2, 11, 5, 10));

    assert_eq!(round_robin_repeats(10, 3), 3);
    assert_eq!(round_robin_repeats(2, 5), 1);
}

