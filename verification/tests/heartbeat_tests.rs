use icsprism::heartbeat::{
    bytes_to_hex, bytes_to_i16_words_le, describe_field_value, describe_typed_value,
    flatten_state_from_layout, heartbeat_due, heartbeat_leaf_line, heartbeat_path,
    input_flags_from_table, parse_array_type, parse_struct_ref, table_heartbeat_line,
    HeartbeatLayout, InputFlags, StateLeaf,
};
use icsprism::layout::{FieldLayout, ProgramLayout};

fn field(index: u32, name: &str, ty: &str, size: u64, offset: u64) -> FieldLayout {
    FieldLayout {
        index,
        name: Some(name.to_string()),
        llvm_type: ty.to_string(),
        byte_size: size,
        byte_offset: offset,
    }
}

fn program(name: &str, fields: Vec<FieldLayout>) -> ProgramLayout {
    ProgramLayout {
        struct_name: name.to_string(),
        function_name: name.to_string(),
        total_bytes: fields.iter().map(|f| f.byte_size).sum(),
        fields,
    }
}

#[test]
fn heartbeat_path_sanitises_tag() {
    assert_eq!(heartbeat_path("prism-ddg"), "/tmp/prism-ddg_state_heartbeat.txt");
    assert_eq!(heartbeat_path("a b/c_d"), "/tmp/a_b_c_d_state_heartbeat.txt");
}

#[test]
fn hex_and_words() {
    assert_eq!(bytes_to_hex(&[0x00, 0xab, 0x0f]), "00ab0f");
    assert_eq!(bytes_to_hex(&[]), "");
    assert_eq!(bytes_to_i16_words_le(&[1, 0, 0xff, 0xff]), Some("1,-1".to_string()));
    assert_eq!(bytes_to_i16_words_le(&[1, 0, 2]), None);
    assert_eq!(bytes_to_i16_words_le(&[]), None);
}

#[test]
fn field_values_by_size() {
    assert_eq!(describe_field_value(&[0xff]), "u8=255 i8=-1 hex=0xff");
    assert_eq!(describe_field_value(&[0xfe, 0xff]), "u16=65534 i16=-2 hex=0xfeff");
    assert_eq!(describe_field_value(&[1, 0, 0, 0]), "u32=1 i32=1 hex=0x01000000");
    assert_eq!(describe_field_value(&[1, 0, 2, 0, 3, 0]), "hex=0x010002000300 i16=[1,2,3]");
    assert_eq!(describe_field_value(&[1, 2, 3]), "hex=0x010203");
}

#[test]
fn array_types() {
    assert_eq!(parse_array_type(" [16 x i16] "), Some((16, "i16".to_string())));
    assert_eq!(parse_array_type("[4 x %Counter]"), Some((4, "%Counter".to_string())));
    assert_eq!(parse_array_type("i16"), None);
    assert_eq!(parse_array_type("[x x i16]"), None);
}

#[test]
fn typed_values() {
    assert_eq!(describe_typed_value("i8", &[0xff]), "i8=-1 u8=255 hex=0xff");
    assert_eq!(describe_typed_value("i16", &[0x0c, 0]), "i16=12 hex=0x0c00");
    assert_eq!(describe_typed_value(" i32 ", &[0xff, 0xff, 0xff, 0xff]), "i32=-1 hex=0xffffffff");
    assert_eq!(describe_typed_value("i64", &[2, 0, 0, 0, 0, 0, 0, 0]), "i64=2 hex=0x0200000000000000");
    assert_eq!(describe_typed_value("[2 x i16]", &[1, 0, 0xff, 0xff]), "[1,-1] hex=0x0100ffff");
    assert_eq!(describe_typed_value("[3 x i8]", &[1, 0xff, 3]), "[1,-1,3] hex=0x01ff03");
    assert_eq!(describe_typed_value("i16", &[1]), "u8=1 i8=1 hex=0x01");
    assert_eq!(describe_typed_value("double", &[1, 0]), "u16=1 i16=1 hex=0x0100");
}

#[test]
fn struct_references() {
    assert_eq!(parse_struct_ref("%Counter"), Some("Counter".to_string()));
    assert_eq!(parse_struct_ref("  %Counter = type"), Some("Counter".to_string()));
    assert_eq!(parse_struct_ref("%"), None);
    assert_eq!(parse_struct_ref("i16"), None);
}

fn sample_layout() -> HeartbeatLayout {
    HeartbeatLayout {
        by_struct: vec![
            program(
                "Main",
                vec![
                    field(0, "__vtable", "ptr", 8, 0),
                    field(1, "Delta", "i16", 2, 8),
                    field(2, "Acc", "i16", 2, 10),
                    field(3, "C", "%Counter", 4, 12),
                ],
            ),
            program("Counter", vec![field(0, "Value", "i16", 2, 0), field(1, "Calls", "i16", 2, 2)]),
        ],
    }
}

#[test]
fn state_leaves_skip_inputs_and_walk_structs() {
    let flags = input_flags_from_table(&vec![
        (Some("Delta".to_string()), 1),
        (None, 1),
        (Some("Acc".to_string()), 0),
    ]);
    let leaves = flatten_state_from_layout(&sample_layout(), "Main", &flags).unwrap();
    let names: Vec<(String, usize, usize)> =
        leaves.iter().map(|l| (l.name.clone(), l.offset, l.size)).collect();
    assert_eq!(
        names,
        vec![
            ("Acc".to_string(), 10, 2),
            ("C.Value".to_string(), 12, 2),
            ("C.Calls".to_string(), 14, 2),
        ]
    );
    assert!(flatten_state_from_layout(&sample_layout(), "Other", &flags).is_none());
}

#[test]
fn self_nesting_layout_gives_none() {
    let layout = HeartbeatLayout {
        by_struct: vec![program("Loop", vec![field(0, "Me", "%Loop", 2, 0)])],
    };
    let flags = InputFlags { entries: vec![] };
    assert!(flatten_state_from_layout(&layout, "Loop", &flags).is_none());
}

#[test]
fn input_flags_last_entry_wins() {
    let flags = input_flags_from_table(&vec![
        (Some("A".to_string()), 1),
        (Some("A".to_string()), 0),
        (Some("B".to_string()), 1),
    ]);
    assert_eq!(flags.get(&['A']), Some(false));
    assert_eq!(flags.get(&['B']), Some(true));
    assert_eq!(flags.get(&['C']), None);
}

#[test]
fn leaf_lines() {
    let leaf = StateLeaf { name: "C.Value".to_string(), llvm_type: "i16".to_string(), offset: 2, size: 2 };
    let snap = [0u8, 0, 7, 0];
    assert_eq!(
        heartbeat_leaf_line("t", &leaf, &snap),
        Some("[t]   C.Value (2B @ 2) = i16=7 hex=0x0700".to_string())
    );
    let outside = StateLeaf { name: "X".to_string(), llvm_type: "i16".to_string(), offset: 3, size: 2 };
    assert_eq!(heartbeat_leaf_line("t", &outside, &snap), None);
}

#[test]
fn table_lines() {
    let name = Some("Acc".to_string());
    assert_eq!(table_heartbeat_line("t", 1, &name, 2, 2, &[1, 0]), None);
    assert_eq!(table_heartbeat_line("t", 0, &None, 2, 2, &[1, 0]), None);
    assert_eq!(table_heartbeat_line("t", 0, &Some("__vtable".to_string()), 8, 8, &[0; 8]), None);
    assert_eq!(table_heartbeat_line("t", 0, &name, 0, 0, &[]), Some("[t]   Acc = <empty>".to_string()));
    assert_eq!(
        table_heartbeat_line("t", 0, &name, 2, 1, &[1, 0]),
        Some("[t]   Acc = <read-error got=1 expected=2>".to_string())
    );
    assert_eq!(
        table_heartbeat_line("t", 0, &name, 2, 2, &[1, 0]),
        Some("[t]   Acc (2B) = u16=1 i16=1 hex=0x0100".to_string())
    );
}

#[test]
fn heartbeat_interval() {
    assert!(heartbeat_due(None, 10));
    assert!(!heartbeat_due(Some(9_999_999_999), 10));
    assert!(heartbeat_due(Some(10_000_000_000), 10));
    assert!(!heartbeat_due(Some(999_999_999), 0));
    assert!(heartbeat_due(Some(1_000_000_000), 0));
}

#[test]
fn acyclic_nesting_as_deep_as_the_layouts_flattens() {
    // Three layouts nested three deep: the depth bound (the number of
    // layouts) is never reached.
    let layout = HeartbeatLayout {
        by_struct: vec![
            program("C", vec![field(0, "v", "i16", 2, 0)]),
            program("B", vec![field(0, "c", "%C", 2, 0)]),
            program("A", vec![field(0, "b", "%B", 2, 4)]),
        ],
    };
    let flags = InputFlags { entries: vec![] };
    let leaves = flatten_state_from_layout(&layout, "A", &flags).unwrap();
    let names: Vec<(String, usize)> = leaves.iter().map(|l| (l.name.clone(), l.offset)).collect();
    assert_eq!(names, vec![("b.c.v".to_string(), 4)]);
}
