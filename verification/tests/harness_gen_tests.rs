use icsprism::harness_gen::{classify_field, generate_harness, parse_llvm_type, CType, FieldKind};
use icsprism::layout::{FieldLayout, ProgramLayout};

fn lf(index: u32, name: Option<&str>, ty: &str, size: u64, offset: u64) -> FieldLayout {
    FieldLayout { index, name: name.map(|s| s.to_string()), llvm_type: ty.to_string(), byte_size: size, byte_offset: offset }
}

fn layouts() -> Vec<ProgramLayout> {
    vec![
        ProgramLayout {
            struct_name: "Counter".to_string(),
            function_name: "Counter".to_string(),
            total_bytes: 4,
            fields: vec![lf(0, Some("Value"), "i16", 2, 0), lf(1, None, "i16", 2, 2)],
        },
        ProgramLayout {
            struct_name: "Main".to_string(),
            function_name: "Main".to_string(),
            total_bytes: 24,
            fields: vec![
                lf(0, Some("__vtable"), "ptr", 8, 0),
                lf(1, Some("Speed"), "i16", 2, 8),
                lf(2, Some("Buf"), "[4 x i8]", 4, 10),
                lf(3, Some("C"), "%Counter", 4, 14),
                lf(4, Some("D"), "%Other = type { i8 }", 2, 18),
            ],
        },
    ]
}

#[test]
fn llvm_types_to_c() {
    assert!(matches!(parse_llvm_type(" i16 ", 2), CType::Scalar { c_type } if c_type == "int16_t"));
    assert!(matches!(parse_llvm_type("double", 8), CType::Scalar { c_type } if c_type == "double"));
    assert!(matches!(parse_llvm_type("ptr", 8), CType::Opaque { byte_size: 8 }));
    assert!(
        matches!(parse_llvm_type("[16 x i16]", 32), CType::Array { element_c_type, count: 16 } if element_c_type == "int16_t")
    );
    assert!(
        matches!(parse_llvm_type("[3 x %Foo]", 6), CType::Array { element_c_type, count: 3 } if element_c_type == "uint8_t")
    );
    assert!(matches!(parse_llvm_type("%struct.Counter", 4), CType::Nested { struct_name } if struct_name == "Counter"));
    assert!(matches!(parse_llvm_type("%", 4), CType::Opaque { byte_size: 4 }));
    assert!(matches!(parse_llvm_type("x86_fp80", 10), CType::Opaque { byte_size: 10 }));
}

#[test]
fn field_kinds() {
    assert_eq!(classify_field(&lf(0, Some("__vtable"), "ptr", 8, 0)), FieldKind::Vtable);
    assert_eq!(classify_field(&lf(0, Some("C"), "%Counter", 4, 0)), FieldKind::State);
    assert_eq!(classify_field(&lf(0, Some("P"), " ptr ", 8, 0)), FieldKind::State);
    assert_eq!(classify_field(&lf(0, None, "i16", 2, 0)), FieldKind::Input);
}

#[test]
fn missing_program_is_an_error() {
    assert_eq!(
        generate_harness(&layouts(), "Nope"),
        Err("Program 'Nope' not found in layout JSON".to_string())
    );
}

#[test]
fn harness_text() {
    let c = generate_harness(&layouts(), "Main").unwrap();
    assert!(c.starts_with("/* Generated by prism-harness for program: Main */\n"));
    assert!(c.contains("#include <stdint.h>\n#include <stddef.h>\n#include <string.h>\n#include <stdlib.h>\n"));
    let counter = "typedef struct {\n    int16_t Value;  /* offset=0 size=2 */\n    int16_t _pad1;  /* offset=2 size=2 */\n} Counter_t;\n";
    let main = "typedef struct {\n    uint8_t __vtable[8];  /* offset=0 opaque */\n    int16_t Speed;  /* offset=8 size=2 */\n    int8_t Buf[4];  /* offset=10 size=4 */\n    Counter_t C;  /* offset=14 size=4 nested */\n    uint8_t D[2];  /* offset=18 size=2 opaque nested */\n} Main_t;\n";
    let ci = c.find(counter).expect("Counter typedef");
    let mi = c.find(main).expect("Main typedef");
    assert!(ci < mi);
    assert!(c.contains("    { \"Speed\", 8, 2, 1 },\n"));
    assert!(c.contains("    { \"__vtable\", 0, 8, 0 },\n"));
    assert!(c.contains("    { \"C\", 14, 4, 0 },\n"));
}

#[test]
fn harness_provides_abort_oracle() {
    let c = generate_harness(&layouts(), "Main").unwrap();
    let oracle = "int32_t prism_bug_abort_if(int32_t should_abort) {\n    if (should_abort != 0) {\n        __builtin_trap();\n    }\n    return 0;\n}\n";
    let oi = c.find(oracle).expect("abort oracle");
    let ri = c.find("size_t prism_input_size(void)").expect("input size");
    let si = c.find("size_t prism_state_size(void)").expect("state size");
    assert!(ri < oi && oi < si);
}

#[test]
fn nested_typedefs_at_every_depth() {
    let all = vec![
        ProgramLayout {
            struct_name: "A".to_string(),
            function_name: "A".to_string(),
            total_bytes: 2,
            fields: vec![lf(0, Some("x"), "i16", 2, 0)],
        },
        ProgramLayout {
            struct_name: "B".to_string(),
            function_name: "B".to_string(),
            total_bytes: 2,
            fields: vec![lf(0, Some("a"), "%A", 2, 0)],
        },
        ProgramLayout {
            struct_name: "T".to_string(),
            function_name: "T".to_string(),
            total_bytes: 6,
            fields: vec![lf(0, Some("b"), "%B", 2, 0), lf(1, None, "i16", 2, 2), lf(2, Some("b2"), "%B", 2, 4)],
        },
    ];
    let c = generate_harness(&all, "T").unwrap();
    let a = c.find("} A_t;").expect("A typedef");
    let b = c.find("} B_t;").expect("B typedef");
    let t = c.find("} T_t;").expect("T typedef");
    assert!(a < b && b < t);
    assert_eq!(c.matches("} A_t;").count(), 1);
    assert_eq!(c.matches("} B_t;").count(), 1);
    // The unnamed input field is copied into the member the typedef declares.
    assert!(c.contains("    int16_t _pad1;  /* offset=2 size=2 */\n"));
    assert!(c.contains("        memcpy(&s->_pad1, data + cursor, 2);\n"));
    assert!(!c.contains("s->?"));
}
