use icsprism::ir_names::{
    count_struct_fields, extract_named_structs, find_struct_name_in_ir, is_llvm_intrinsic,
    is_valid_ssa, normalize_struct_name, parse_definition_ssa, parse_ssa_def,
};
use icsprism::metadata::{
    build_ssa_name_map, extract_dbg_value_aliases, extract_field_names_from_debug,
    extract_metadata_map, extract_metadata_ref_after, extract_metadata_refs, extract_quoted_arg,
    extract_struct_field_names_from_debug, find_metadata_ref_after_marker, first_ssa_token,
    is_ssa_char,
};

fn cs(s: &str) -> Vec<char> {
    s.chars().collect()
}

fn st(v: Vec<char>) -> String {
    v.into_iter().collect()
}

#[test]
fn ssa_definitions() {
    assert!(is_valid_ssa(&cs("%x.1_a")));
    assert!(!is_valid_ssa(&cs("%")));
    assert!(!is_valid_ssa(&cs("x")));
    assert_eq!(parse_definition_ssa(&cs("  %5 = load i16, ptr %3")).map(st), Some("%5".to_string()));
    assert_eq!(parse_definition_ssa(&cs("store i16 %5, ptr %3")), None);
    assert_eq!(parse_definition_ssa(&cs("%a b = add")), None);
    // Unicode letters count as alphanumeric in the analysis variant.
    assert_eq!(parse_ssa_def(&cs("%größe = add i16 1, 2")).map(st), Some("%größe".to_string()));
    assert_eq!(parse_definition_ssa(&cs("%größe = add i16 1, 2")), None);
    assert_eq!(parse_ssa_def(&cs("%a-b = add")), None);
}

#[test]
fn struct_names_and_fields() {
    assert_eq!(st(normalize_struct_name(&cs("  struct.class.Motor "))), "Motor");
    assert_eq!(st(normalize_struct_name(&cs("class.Pump"))), "Pump");
    assert_eq!(count_struct_fields(&cs("%Main = type { i16, [4 x i8], { i8, i16 }, <2 x i32> }")), 4);
    assert_eq!(count_struct_fields(&cs("%Main = type {}")), 0);
    assert_eq!(count_struct_fields(&cs("%Main = type opaque")), 0);
    let ir = "%struct.Main = type { i16, i16 }\n  %Counter = type { ptr, i16 }\ndefine void @Main() {\n";
    assert_eq!(
        extract_named_structs(ir),
        vec![("Main".to_string(), 2), ("Counter".to_string(), 2)]
    );
}

#[test]
fn intrinsics() {
    assert!(is_llvm_intrinsic(&cs("llvm.dbg.declare")));
    assert!(is_llvm_intrinsic(&cs("__init_prg")));
    assert!(is_llvm_intrinsic(&cs("__user_init_prg")));
    assert!(!is_llvm_intrinsic(&cs("_prg")));
    assert!(!is_llvm_intrinsic(&cs("prg")));
    assert!(!is_llvm_intrinsic(&cs("Main")));
}

#[test]
fn struct_of_a_function() {
    let ir = "define void @Main(ptr %0) {\n  ret void\n}\ndefine void @Step(%Counter* %this) {\ndefine void @Self(%Self* %this) {\n";
    assert_eq!(find_struct_name_in_ir(ir, "Step"), Some("Counter".to_string()));
    assert_eq!(find_struct_name_in_ir(ir, "Main"), None);
    assert_eq!(find_struct_name_in_ir(ir, "Self"), None);
    assert_eq!(find_struct_name_in_ir(ir, "Missing"), None);
}

#[test]
fn metadata_lines() {
    let ir = "!0 = !{!1, !2}\n !12 = !DILocalVariable(name: \"Speed\", scope: !3)\n!x = !{}\n!llvm.dbg.cu = !{!0}\n";
    let md = extract_metadata_map(ir);
    assert_eq!(md.get(&cs("!12")), Some("!DILocalVariable(name: \"Speed\", scope: !3)".to_string()));
    assert_eq!(md.get(&cs("!0")), Some("!{!1, !2}".to_string()));
    assert_eq!(md.get(&cs("!x")), None);
    assert_eq!(md.get(&cs("!llvm.dbg.cu")), None);
}

#[test]
fn metadata_fields() {
    assert_eq!(extract_quoted_arg(&cs("name: \"Speed\", x"), "name:").map(st), Some("Speed".to_string()));
    assert_eq!(extract_quoted_arg(&cs("type: !3"), "name:"), None);
    assert_eq!(extract_metadata_ref_after(&cs("elements:  !42)"), "elements:").map(st), Some("!42".to_string()));
    assert_eq!(extract_metadata_ref_after(&cs("elements: !x"), "elements:"), None);
    let refs: Vec<String> = extract_metadata_refs(&cs("!{!1, !22, !, !3}")).into_iter().map(st).collect();
    assert_eq!(refs, vec!["!1", "!22", "!3"]);
    assert!(is_ssa_char('.') && is_ssa_char('_') && is_ssa_char('Z') && !is_ssa_char('-'));
    assert_eq!(first_ssa_token(&cs("call void @f(ptr %x.1, i16 %2)")).map(st), Some("%x.1".to_string()));
    assert_eq!(first_ssa_token(&cs("100% done")), None);
    assert_eq!(
        find_metadata_ref_after_marker(&cs("metadata ptr %1, metadata !17, metadata !DIExpression()"), "metadata !")
            .map(st),
        Some("!17".to_string())
    );
}

const DBG_IR: &str = "\
define void @Main() {
  call void @llvm.dbg.declare(metadata ptr %3, metadata !7, metadata !DIExpression())
  call void @llvm.dbg.value(metadata i16 %5, metadata !8, metadata !DIExpression())
}
!7 = !DILocalVariable(name: \"Speed\", scope: !2)
!8 = !DILocalVariable(name: \"Level\", scope: !2)
!20 = !DICompositeType(tag: DW_TAG_structure_type, name: \"struct.Main\", elements: !21)
!21 = !{!22, !23, !24}
!22 = !DIDerivedType(tag: DW_TAG_member, name: \"Speed\", baseType: !9)
!23 = !DIDerivedType(tag: DW_TAG_member, name: \"Level\", baseType: !9)
!24 = !DISubrange(count: 4)
";

#[test]
fn debug_names() {
    let aliases = extract_dbg_value_aliases(DBG_IR);
    assert_eq!(aliases.get(&cs("%3")), Some("Speed".to_string()));
    assert_eq!(aliases.get(&cs("%5")), Some("Level".to_string()));
    let names = build_ssa_name_map(DBG_IR);
    assert_eq!(names.get(&cs("%3")), Some("Speed".to_string()));
    assert_eq!(names.get(&cs("%5")), Some("Level".to_string()));
    assert_eq!(names.get(&cs("%7")), None);
    let fields = extract_struct_field_names_from_debug(DBG_IR);
    assert_eq!(fields.get(&cs("Main")), Some(vec!["Speed".to_string(), "Level".to_string()]));
    let fields = extract_field_names_from_debug(DBG_IR);
    assert_eq!(fields.get(&cs("Main")), Some(vec!["Speed".to_string(), "Level".to_string()]));
}

#[test]
fn ssa_name_from_dbg_value() {
    let ir = "  call void @llvm.dbg.value(metadata i16 %lang, metadata !7, metadata !DIExpression())\n!7 = !DILocalVariable(name: \"LANG\", scope: !1)";
    let names = build_ssa_name_map(ir);
    assert_eq!(names.get(&cs("%lang")), Some("LANG".to_string()));
}
