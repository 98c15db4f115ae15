use icsprism::config::{ExecutionConfig, ExecutionMode, PrismFuzzConfig};
use icsprism::input_plan::{
    build_input_plan, compact_byte_owner, compact_span, compact_weight_sources,
    expand_compact_input, expand_for_sequence, field_span, format_roles, input_size,
    is_fuzzable, is_selected_field, map_input, InputFieldGuide,
};
use icsprism::layout::{FieldLayout, ProgramLayout};

fn lf(name: Option<&str>, ty: &str, size: u64, offset: u64) -> FieldLayout {
    FieldLayout { index: 0, name: name.map(|s| s.to_string()), llvm_type: ty.to_string(), byte_size: size, byte_offset: offset }
}

fn layout() -> ProgramLayout {
    ProgramLayout {
        struct_name: "Main".to_string(),
        function_name: "Main".to_string(),
        total_bytes: 12,
        fields: vec![
            lf(Some("__vtable"), "ptr", 8, 0),
            lf(Some("A"), "i16", 2, 8),
            lf(Some("C"), "%Counter", 4, 12),
            lf(None, "i8", 1, 10),
        ],
    }
}

fn guide(name: &str, size: u64, offset: u64, roles: &[&str], critical: bool) -> InputFieldGuide {
    InputFieldGuide {
        name: name.to_string(),
        llvm_type: "i16".to_string(),
        byte_size: size,
        byte_offset: offset,
        model: "range_i16".to_string(),
        roles: roles.iter().map(|r| r.to_string()).collect(),
        comparisons: vec![],
        target_values: vec![],
        critical,
    }
}

fn scan(cycles: usize) -> PrismFuzzConfig {
    PrismFuzzConfig {
        execution: ExecutionConfig {
            mode: ExecutionMode::ScanSequence,
            cycles,
            warmup_cycles: 0,
            max_cycles: 64,
            per_testcase_reset: true,
            timeout_ms: 5000,
        },
    }
}

#[test]
fn fuzzable_fields_and_input_size() {
    let l = layout();
    assert!(!is_fuzzable(&l.fields[0]));
    assert!(is_fuzzable(&l.fields[1]));
    assert!(!is_fuzzable(&l.fields[2]));
    assert!(is_fuzzable(&l.fields[3]));
    assert_eq!(input_size(&l), 3);
}

#[test]
fn inputs_are_mapped_into_a_zeroed_instance() {
    let l = layout();
    let mut inst = vec![0xeeu8; 12];
    map_input(&[1, 2, 3, 4], &mut inst, &l);
    assert_eq!(inst, vec![0, 0, 0, 0, 0, 0, 0, 0, 1, 2, 3, 0]);
    let mut inst = vec![0xeeu8; 12];
    map_input(&[1], &mut inst, &l);
    assert_eq!(inst, vec![0u8; 12]);
}

#[test]
fn per_byte_data_is_repeated() {
    assert_eq!(expand_for_sequence(&[1u8, 2, 3], 7, 0), vec![1, 2, 3, 1, 2, 3, 1]);
    assert_eq!(expand_for_sequence::<u8>(&[], 0, 9), vec![9]);
    assert_eq!(expand_for_sequence::<u8>(&[], 3, 9), vec![9, 9, 9]);
}

#[test]
fn selection_and_roles() {
    assert!(is_selected_field(&guide("a", 2, 0, &["neutral", "driver"], false)));
    assert!(is_selected_field(&guide("a", 2, 0, &[], true)));
    assert!(!is_selected_field(&guide("a", 2, 0, &["neutral"], false)));
    assert_eq!(format_roles(&[]), "<none>");
    assert_eq!(format_roles(&["driver".to_string(), "activator".to_string()]), "driver,activator");
}

#[test]
fn plans_keep_the_selected_fields() {
    let guides = vec![
        guide("A", 2, 0, &["neutral"], false),
        guide("B", 2, 2, &["driver"], false),
        guide("C", 1, 4, &[], true),
    ];
    let plan = build_input_plan("Main", 6, &guides);
    assert_eq!(plan.main_function, "Main");
    assert_eq!(plan.full_frame_size, 6);
    assert_eq!(plan.compact_frame_size, 3);
    let offsets: Vec<Option<usize>> = plan.fields.iter().map(|f| f.compact_offset).collect();
    assert_eq!(offsets, vec![None, Some(0), Some(2)]);
    assert_eq!(compact_weight_sources(&plan), vec![2, 3, 4]);
    assert_eq!(compact_byte_owner(&plan, 1), Some("B".to_string()));
    assert_eq!(compact_byte_owner(&plan, 2), Some("C".to_string()));
    assert_eq!(compact_byte_owner(&plan, 3), None);

    let none_selected = vec![guide("A", 2, 0, &[], false), guide("B", 1, 3, &["neutral"], false)];
    let plan = build_input_plan("Main", 4, &none_selected);
    let offsets: Vec<Option<usize>> = plan.fields.iter().map(|f| f.compact_offset).collect();
    assert_eq!(offsets, vec![Some(0), Some(2)]);
    assert_eq!(plan.compact_frame_size, 3);
}

#[test]
fn compact_inputs_expand_to_full_frames() {
    let guides = vec![
        guide("A", 2, 0, &["neutral"], false),
        guide("B", 2, 2, &["driver"], false),
        guide("C", 1, 4, &[], true),
    ];
    let plan = build_input_plan("Main", 6, &guides);
    let one = PrismFuzzConfig::default();
    assert_eq!(expand_compact_input(&one, &[7, 8], &plan, 6), None);
    assert_eq!(expand_compact_input(&one, &[7, 8, 9, 1], &plan, 6), Some(vec![0, 0, 7, 8, 9, 0]));
    assert_eq!(
        expand_compact_input(&scan(2), &[1, 2, 3, 4, 5, 6], &plan, 6),
        Some(vec![0, 0, 1, 2, 3, 0, 0, 0, 4, 5, 6, 0])
    );
}

#[test]
fn spans() {
    assert_eq!(field_span(4, 2), "[4..5]");
    assert_eq!(field_span(4, 0), "[4..4]");
    assert_eq!(compact_span(Some(0), 1), "[0..0]");
    assert_eq!(compact_span(None, 2), "SKIP");
}

#[test]
fn compacting_an_expansion_gives_the_data_back() {
    let guides = vec![
        guide("A", 2, 0, &["neutral"], false),
        guide("B", 2, 2, &["driver"], false),
        guide("C", 1, 4, &[], true),
    ];
    let plan = build_input_plan("Main", 6, &guides);
    let config = scan(3);
    let data: Vec<u8> = (1..=9).collect();
    let e = expand_compact_input(&config, &data, &plan, 6).unwrap();
    assert_eq!(e.len(), 18);
    let mut back = Vec::new();
    let mut covered = vec![false; e.len()];
    for c in 0..3 {
        for f in plan.fields.iter().filter(|f| f.selected) {
            for j in 0..f.byte_size {
                back.push(e[c * 6 + f.full_offset + j]);
                covered[c * 6 + f.full_offset + j] = true;
            }
        }
    }
    assert_eq!(back, data);
    assert!(e.iter().zip(covered.iter()).all(|(b, c)| *c || *b == 0));
}
