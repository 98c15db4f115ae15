use icsprism::fields::{FieldRole, FieldValueModel, InputFieldSpec};
use icsprism::mutators::{pick_usize, AccumulationWindowMutator, FramePatternMutator, MutationResult};

fn input(offset: usize, size: usize, model: FieldValueModel, role: FieldRole) -> InputFieldSpec {
    InputFieldSpec { name: format!("f{offset}"), offset, size, model, role }
}

#[test]
fn picks() {
    assert_eq!(pick_usize(17, 0), None);
    assert_eq!(pick_usize(17, 5), Some(2));
}

#[test]
fn window_mutator_entries() {
    let fields = vec![
        input(0, 2, FieldValueModel::I16 { targets: vec![300, -1] }, FieldRole::Driver),
        input(2, 1, FieldValueModel::Bool, FieldRole::Activator),
        input(3, 1, FieldValueModel::Bool, FieldRole::Inhibitor),
        input(4, 1, FieldValueModel::Bool, FieldRole::Other),
        input(5, 2, FieldValueModel::I16 { targets: vec![] }, FieldRole::Driver),
    ];
    let m = AccumulationWindowMutator::new(8, &fields);
    assert_eq!(m.frame_size, 8);
    assert_eq!(m.min_window, 9);
    assert_eq!(
        m.driver_fields,
        vec![(0, vec![vec![0x2c, 0x01], vec![0xff, 0xff]]), (2, vec![vec![1]])]
    );
    assert_eq!(m.inhibitor_offsets, vec![3]);
}

#[test]
fn window_mutator_stamps_a_window() {
    let fields = vec![
        input(0, 2, FieldValueModel::I16 { targets: vec![300, -1] }, FieldRole::Driver),
        input(2, 1, FieldValueModel::Bool, FieldRole::Activator),
    ];
    let m = AccumulationWindowMutator::new(3, &fields);
    let mut short = vec![7u8; 3 * 8];
    assert_eq!(m.mutate(&mut short, &[0, 0, 0, 0]), MutationResult::Skipped);
    assert_eq!(short, vec![7u8; 24]);
    // 10 frames: value 1 of the first driver, window 9 + 1 % 2 = 10 frames from 0.
    let mut bytes = vec![7u8; 3 * 10];
    assert_eq!(m.mutate(&mut bytes, &[1, 0, 1, 0]), MutationResult::Mutated);
    for f in 0..10 {
        assert_eq!(&bytes[3 * f..3 * f + 3], &[0xff, 0xff, 1]);
    }
    // window 9 starting at frame 1.
    let mut bytes = vec![7u8; 3 * 10];
    assert_eq!(m.mutate(&mut bytes, &[0, 0, 0, 1]), MutationResult::Mutated);
    assert_eq!(&bytes[0..3], &[7, 7, 7]);
    for f in 1..10 {
        assert_eq!(&bytes[3 * f..3 * f + 3], &[0x2c, 0x01, 1]);
    }
}

#[test]
fn frame_pattern_entries() {
    let fields = vec![
        input(0, 1, FieldValueModel::Bool, FieldRole::Activator),
        input(1, 1, FieldValueModel::Bool, FieldRole::Inhibitor),
        input(2, 1, FieldValueModel::Bool, FieldRole::Other),
        input(3, 2, FieldValueModel::Raw, FieldRole::Inhibitor),
    ];
    let m = FramePatternMutator::new(4, &fields);
    assert_eq!(m.activator_offsets, vec![0, 2]);
    assert_eq!(m.inhibitor_offsets, vec![1]);
}

#[test]
fn frame_pattern_operations() {
    let m = FramePatternMutator { frame_size: 2, activator_offsets: vec![0], inhibitor_offsets: vec![1] };
    let one_frame = vec![5u8, 6];
    let mut b = one_frame.clone();
    assert_eq!(m.mutate(&mut b, &[0, 0, 0, 0]), MutationResult::Skipped);
    assert_eq!(b, one_frame);
    // op 0: copy frame 0 over frames 1..=2.
    let mut b = vec![1u8, 2, 3, 4, 5, 6, 7, 8];
    assert_eq!(m.mutate(&mut b, &[0, 0, 1, 1]), MutationResult::Mutated);
    assert_eq!(b, vec![1, 2, 1, 2, 1, 2, 7, 8]);
    // op 1: pulse the activator at frame 2.
    let mut b = vec![9u8; 8];
    assert_eq!(m.mutate(&mut b, &[1, 0, 2, 0]), MutationResult::Mutated);
    assert_eq!(b, vec![9, 9, 0, 9, 1, 9, 0, 9]);
    // op 2: with 4 frames the inhibitor window is all of them.
    let mut b = vec![9u8; 8];
    assert_eq!(m.mutate(&mut b, &[2, 0, 0, 0]), MutationResult::Mutated);
    assert_eq!(b, vec![9, 0, 9, 0, 9, 0, 9, 0]);
}
