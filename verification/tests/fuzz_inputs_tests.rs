use icsprism::fields::{FieldRole, FieldValueModel, InputFieldSpec};
use icsprism::fuzz_inputs::{
    apply_range_value, field_from_guide, fields_from_guides, flip_byte, range_mutator_fields,
    runtime_field_specs, write_field_value, FieldLayout, HarnessField, InputFieldGuide,
    ProgramLayout,
};
use icsprism::mutators::MutationResult;

fn guide(name: &str, model: &str, roles: &[&str], targets: Vec<i64>) -> InputFieldGuide {
    InputFieldGuide {
        name: name.to_string(),
        llvm_type: "i16".to_string(),
        byte_size: 2,
        byte_offset: 4,
        model: model.to_string(),
        roles: roles.iter().map(|r| r.to_string()).collect(),
        target_values: targets,
    }
}

fn input(offset: usize, size: usize, model: FieldValueModel) -> InputFieldSpec {
    InputFieldSpec { name: "x".to_string(), offset, size, model, role: FieldRole::Other }
}

#[test]
fn guide_models_and_roles() {
    let f = field_from_guide(&guide("Speed", "range_i16", &["driver", "activator"], vec![70000, -3]));
    assert_eq!((f.name.as_str(), f.offset, f.size), ("Speed", 4, 2));
    assert_eq!(f.role, FieldRole::Activator);
    match f.model {
        FieldValueModel::I16 { targets } => assert_eq!(targets, vec![70000i64 as i16, -3]),
        _ => panic!("expected an i16 model"),
    }
    let f = field_from_guide(&guide("Stop", "bool", &["activator", "inhibitor"], vec![]));
    assert_eq!(f.role, FieldRole::Inhibitor);
    assert!(matches!(f.model, FieldValueModel::Bool));
    let f = field_from_guide(&guide("Blob", "bytes", &["neutral"], vec![]));
    assert_eq!(f.role, FieldRole::Other);
    assert!(matches!(f.model, FieldValueModel::Raw));
    let all = fields_from_guides(&vec![guide("a", "bool", &[], vec![]), guide("b", "raw", &["driver"], vec![])]);
    assert_eq!(all.len(), 2);
    assert_eq!(all[1].role, FieldRole::Driver);
}

#[test]
fn harness_fields_are_packed_in_order() {
    let layout = ProgramLayout {
        struct_name: "Main".to_string(),
        total_bytes: 16,
        fields: vec![
            FieldLayout { name: Some("Speed".to_string()), llvm_type: " i16 ".to_string(), byte_size: 2, byte_offset: 8 },
            FieldLayout { name: Some("StartCmd".to_string()), llvm_type: "i8".to_string(), byte_size: 1, byte_offset: 10 },
        ],
    };
    let hf = |n: Option<&str>, size: usize, is_input: bool| HarnessField { name: n.map(|s| s.to_string()), size, is_input };
    let table = vec![
        hf(Some("Speed"), 2, true),
        hf(Some("Out"), 2, false),
        hf(None, 4, true),
        hf(Some("StartCmd"), 1, true),
        hf(Some("Empty"), 0, true),
        hf(Some("Level"), 1, true),
        hf(Some("Big"), 8, true),
    ];
    let fields = runtime_field_specs(&layout, &table, 6, &[5, 9]);
    let summary: Vec<(String, usize, usize)> = fields.iter().map(|f| (f.name.clone(), f.offset, f.size)).collect();
    assert_eq!(
        summary,
        vec![("Speed".to_string(), 0, 2), ("StartCmd".to_string(), 2, 1), ("Level".to_string(), 3, 1)]
    );
    match &fields[0].model {
        FieldValueModel::I16 { targets } => assert_eq!(targets, &vec![5, 9]),
        _ => panic!("Speed should be an i16"),
    }
    assert!(matches!(fields[1].model, FieldValueModel::Bool));
    assert!(matches!(fields[2].model, FieldValueModel::Raw));
    assert!(fields.iter().all(|f| f.role == FieldRole::Other));
}

#[test]
fn range_entries_skip_raw_and_empty_fields() {
    let fields = vec![
        input(0, 1, FieldValueModel::Bool),
        input(1, 2, FieldValueModel::I16 { targets: vec![258] }),
        input(3, 2, FieldValueModel::I16 { targets: vec![] }),
        input(5, 1, FieldValueModel::Raw),
    ];
    let entries = range_mutator_fields(&fields);
    assert_eq!(entries, vec![(0, 1, vec![vec![0], vec![1]]), (1, 2, vec![vec![2, 1]])]);
}

#[test]
fn range_values_are_written_at_the_drawn_frame() {
    let entry = (1usize, 2usize, vec![vec![0xaa, 0xbb], vec![0xcc]]);
    let mut b = vec![0u8; 8];
    assert_eq!(apply_range_value(&mut b, 4, &entry, 1, 0), MutationResult::Mutated);
    assert_eq!(b, vec![0, 0, 0, 0, 0, 0xaa, 0xbb, 0]);
    let mut b = vec![0u8; 8];
    assert_eq!(apply_range_value(&mut b, 4, &entry, 2, 1), MutationResult::Mutated);
    assert_eq!(b, vec![0, 0xcc, 0, 0, 0, 0, 0, 0]);
    let mut b = vec![0u8; 3];
    assert_eq!(apply_range_value(&mut b, 4, &entry, 0, 0), MutationResult::Skipped);
    let edge = (3usize, 2usize, vec![vec![0xaa, 0xbb]]);
    let mut b = vec![0u8; 4];
    assert_eq!(apply_range_value(&mut b, 4, &edge, 0, 0), MutationResult::Mutated);
    assert_eq!(b, vec![0, 0, 0, 0xaa]);
}

#[test]
fn byte_flips_always_change_the_byte() {
    let mut b = vec![1u8, 2, 3];
    assert_eq!(flip_byte(&mut b, 1, 9), MutationResult::Mutated);
    assert_eq!(b, vec![1, 9, 3]);
    assert_eq!(flip_byte(&mut b, 1, 9), MutationResult::Mutated);
    assert_eq!(b, vec![1, 10, 3]);
    let mut c = vec![255u8];
    flip_byte(&mut c, 0, 255);
    assert_eq!(c, vec![0]);
    assert_eq!(flip_byte(&mut c, 1, 0), MutationResult::Skipped);
}

#[test]
fn field_values_follow_the_model() {
    let mut b = vec![9u8; 6];
    assert_eq!(write_field_value(&mut b, 2, &input(1, 1, FieldValueModel::Bool), &[3, 0]), MutationResult::Mutated);
    assert_eq!(b, vec![9, 9, 9, 1, 9, 9]);
    let t = input(0, 2, FieldValueModel::I16 { targets: vec![300, 400] });
    let mut b = vec![0u8; 4];
    assert_eq!(write_field_value(&mut b, 2, &t, &[79, 3]), MutationResult::Mutated);
    assert_eq!(b, vec![0, 0, 0x90, 0x01]);
    let mut b = vec![0u8; 4];
    assert_eq!(write_field_value(&mut b, 0, &t, &[80, 0xfffe]), MutationResult::Mutated);
    assert_eq!(b, vec![0xfe, 0xff, 0, 0]);
    let odd = input(0, 1, FieldValueModel::I16 { targets: vec![] });
    assert_eq!(write_field_value(&mut b, 0, &odd, &[0, 0]), MutationResult::Skipped);
    let raw = input(1, 2, FieldValueModel::Raw);
    let mut b = vec![0u8; 4];
    assert_eq!(write_field_value(&mut b, 0, &raw, &[0x101, 0x2ff]), MutationResult::Mutated);
    assert_eq!(b, vec![0, 1, 0xff, 0]);
    let mut b = vec![0u8; 2];
    assert_eq!(write_field_value(&mut b, 1, &raw, &[1, 2]), MutationResult::Skipped);
    assert_eq!(b, vec![0, 0]);
}
