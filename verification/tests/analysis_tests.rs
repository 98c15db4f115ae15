use icsprism::ddg_guide::{build_ddg_distances, field_distances, infer_i16_targets_from_ddg, looks_boolish, parse_int_literals, Ddg, DdgEdge, DdgNode};
use icsprism::layout::{extract_layout, FieldTypeInfo, ModuleInfo, StructTypeInfo};
use icsprism::probe::{byte_distances, LayoutField, extract_string_opt, extract_u64, object_blocks, parse_ddg, parse_layout, top_level_objects};
use std::collections::HashMap;

fn cs(s: &str) -> Vec<char> {
    s.chars().collect()
}

fn node(id: u64, ir: &str, dynamic: bool) -> DdgNode {
    DdgNode { id, defines: None, ir: ir.to_string(), has_dynamic_index: dynamic }
}

#[test]
fn distances_are_shortest_paths_to_sinks() {
    let ddg = Ddg {
        nodes: vec![node(1, "gep", true), node(2, "", false), node(3, "", false), node(4, "", false), node(5, "", false)],
        edges: vec![
            DdgEdge { from: 2, to: 1 },
            DdgEdge { from: 3, to: 2 },
            DdgEdge { from: 3, to: 1 },
            DdgEdge { from: 4, to: 3 },
            DdgEdge { from: 1, to: 5 },
        ],
    };
    let d = build_ddg_distances(&ddg);
    let mut expected = HashMap::new();
    expected.insert(1u64, 0u32);
    expected.insert(2, 1);
    expected.insert(3, 1);
    expected.insert(4, 2);
    assert_eq!(d, expected);
}

#[test]
fn integer_literals() {
    assert_eq!(parse_int_literals("icmp slt i16 %5, 100"), vec![16, 5, 100]);
    assert_eq!(parse_int_literals("x-12 y--3 z"), vec![-12]);
    assert_eq!(parse_int_literals("99999999999 7"), vec![7]);
    assert_eq!(parse_int_literals("none"), Vec::<i32>::new());
}

#[test]
fn targets_come_from_comparisons_near_sinks() {
    let ddg = Ddg {
        nodes: vec![
            node(1, "%3 = getelementptr [4 x i16], ptr %b, i16 0, i16 %2", true),
            node(2, "%2 = ICMP sgt i16 %1, 40000", false),
            node(3, "%9 = icmp eq i16 %8, 7", false),
            node(4, "switch i16 %0, label %d [ i16 -32768, label %a ]", false),
        ],
        edges: vec![DdgEdge { from: 2, to: 1 }, DdgEdge { from: 4, to: 2 }],
    };
    let d = build_ddg_distances(&ddg);
    assert_eq!(infer_i16_targets_from_ddg(&ddg, &d), vec![-32768, -32767, -1, 0, 1, 2, 3, 15, 16, 17]);
    let empty = Ddg { nodes: vec![], edges: vec![] };
    let d = build_ddg_distances(&empty);
    assert_eq!(
        infer_i16_targets_from_ddg(&empty, &d),
        vec![0, 1, 2, 3, 4, 7, 15, 31, 50, 59, 60, 70, 71, 90, 100]
    );
}

#[test]
fn boolish_names() {
    assert!(looks_boolish("StartCmd", " i8 ", 1));
    assert!(looks_boolish("cmdGo", "i8", 1));
    assert!(looks_boolish("Alarm", "i8", 1));
    assert!(!looks_boolish("Enable", "i16", 2));
    assert!(!looks_boolish("Level", "i8", 1));
}

const DDG_JSON: &str = r#"{
  "nodes": [
    {"id": 0, "defines": "%1", "ir": "a { b } \"c\"", "has_dynamic_index": false},
    {"id": 7, "defines": null, "has_dynamic_index": true},
    {"defines": "%x"}
  ],
  "edges": [
    {"from": 0, "to": 7, "kind": "data_ssa"},
    {"from": 7, "kind": "x"}
  ]
}"#;

#[test]
fn ddg_json_scanning() {
    let (nodes, edges) = parse_ddg(DDG_JSON);
    assert_eq!(nodes.len(), 2);
    assert_eq!((nodes[0].id, nodes[0].defines.clone(), nodes[0].has_dynamic_index), (0, Some("%1".to_string()), false));
    assert_eq!((nodes[1].id, nodes[1].defines.clone(), nodes[1].has_dynamic_index), (7, None, true));
    assert_eq!(edges.len(), 1);
    assert_eq!((edges[0].from, edges[0].to, edges[0].kind.as_str()), (0, 7, "data_ssa"));
    let blocks: Vec<String> = top_level_objects(&cs("[{\"a\": \"}\"}, {\"b\": {\"c\": 1}}]"))
        .into_iter()
        .map(|b| b.into_iter().collect())
        .collect();
    assert_eq!(blocks, vec!["{\"a\": \"}\"}".to_string(), "{\"b\": {\"c\": 1}}".to_string()]);
    assert_eq!(object_blocks(&cs("no objects")).len(), 0);
    assert_eq!(extract_u64(&cs("\"id\" :\n 42,"), "\"id\""), Some(42));
    assert_eq!(extract_u64(&cs("\"id\": x"), "\"id\""), None);
    assert_eq!(extract_string_opt(&cs("\"n\": \"abc\""), "\"n\""), Some("abc".to_string()));
    assert_eq!(extract_string_opt(&cs("\"n\": null"), "\"n\""), None);
}

#[test]
fn layout_json_scanning() {
    let json = r#"[
      {"struct_name": "Main", "total_bytes": 4, "fields": [
        {"index": 0, "name": "A", "llvm_type": "i16", "byte_size": 2, "byte_offset": 0},
        {"index": 1, "name": null, "llvm_type": "i16", "byte_size": 2, "byte_offset": 2}
      ]},
      {"struct_name": "Empty", "fields": []}
    ]"#;
    let ls = parse_layout(json);
    assert_eq!(ls.len(), 2);
    assert_eq!((ls[0].struct_name.as_str(), ls[0].total_bytes, ls[0].fields.len()), ("Main", 4, 2));
    assert_eq!(ls[0].fields[0].name, Some("A".to_string()));
    assert_eq!(ls[0].fields[1].name, None);
    assert_eq!((ls[0].fields[1].byte_offset, ls[0].fields[1].byte_size), (2, 2));
    assert_eq!((ls[1].struct_name.as_str(), ls[1].total_bytes, ls[1].fields.len()), ("Empty", 0, 0));
}

fn fti(ty: &str, bits: u64, off: Option<u64>) -> FieldTypeInfo {
    FieldTypeInfo { llvm_type: ty.to_string(), bit_size: bits, byte_offset: off }
}

#[test]
fn layouts_from_module_info() {
    let module = ModuleInfo {
        functions: vec![
            Some("llvm.dbg.declare".to_string()),
            Some("Main".to_string()),
            Some("Helper".to_string()),
            Some("Step".to_string()),
            None,
            Some("Hollow".to_string()),
            Some("__init_Main".to_string()),
        ],
        structs: vec![
            StructTypeInfo { name: "Main".to_string(), opaque: false, bit_size: 48, fields: vec![fti("i16", 16, Some(0)), fti("[4 x i8]", 32, Some(2))] },
            StructTypeInfo { name: "Counter".to_string(), opaque: false, bit_size: 16, fields: vec![fti("i16", 16, None)] },
            StructTypeInfo { name: "Hollow".to_string(), opaque: true, bit_size: 0, fields: vec![] },
            StructTypeInfo { name: "__init_Main".to_string(), opaque: false, bit_size: 16, fields: vec![fti("i16", 16, Some(0))] },
        ],
    };
    let ir = "define void @Step(%Counter* %this) {\n!20 = !DICompositeType(tag: DW_TAG_structure_type, name: \"Main\", elements: !21)\n!21 = !{!22, !23}\n!22 = !DIDerivedType(tag: DW_TAG_member, name: \"Speed\")\n!23 = !DIDerivedType(tag: DW_TAG_member, name: \"Buf\")\n";
    let ls = extract_layout(&module, ir, None);
    assert_eq!(ls.len(), 2);
    assert_eq!((ls[0].struct_name.as_str(), ls[0].function_name.as_str(), ls[0].total_bytes), ("Main", "Main", 6));
    let f: Vec<(u32, Option<String>, String, u64, u64)> =
        ls[0].fields.iter().map(|f| (f.index, f.name.clone(), f.llvm_type.clone(), f.byte_size, f.byte_offset)).collect();
    assert_eq!(
        f,
        vec![
            (0, Some("Speed".to_string()), "i16".to_string(), 2, 0),
            (1, Some("Buf".to_string()), "[4 x i8]".to_string(), 4, 2),
        ]
    );
    assert_eq!((ls[1].struct_name.as_str(), ls[1].function_name.as_str(), ls[1].total_bytes), ("Counter", "Step", 2));
    assert_eq!(ls[1].fields[0].name, None);
    assert_eq!(ls[1].fields[0].byte_offset, 0);
    assert_eq!(extract_layout(&module, ir, Some("Step")).len(), 1);
}

#[test]
fn smallest_distance_per_name_and_per_byte() {
    let mut d1 = node(1, "", false);
    d1.defines = Some("%speed".to_string());
    let mut d2 = node(2, "", false);
    d2.defines = Some("%%speed".to_string());
    let mut d3 = node(3, "", false);
    d3.defines = Some("%level".to_string());
    let mut d4 = node(4, "", false);
    d4.defines = Some("%idle".to_string());
    let ddg = Ddg { nodes: vec![d1, d2, d3, d4], edges: vec![] };
    let mut dist = HashMap::new();
    dist.insert(1u64, 5u32);
    dist.insert(2, 2);
    dist.insert(3, 0);
    let mut nd = field_distances(&ddg, &dist);
    nd.sort();
    assert_eq!(nd, vec![("level".to_string(), 0), ("speed".to_string(), 2)]);

    let lf = |name: Option<&str>, ty: &str, off: u64, size: u64| LayoutField {
        name: name.map(|s| s.to_string()),
        llvm_type: ty.to_string(),
        byte_offset: off,
        byte_size: size,
    };
    let fields = vec![
        lf(Some("__vtable"), "ptr", 0, 2),
        lf(Some("speed"), "i16", 2, 2),
        lf(Some("level"), "i16", 3, 2),
        lf(Some("C"), "%Counter", 5, 1),
        lf(Some("idle"), "i8", 6, 4),
    ];
    let bd = byte_distances(&fields, &nd, 8);
    assert_eq!(bd, vec![None, None, Some(2), Some(0), Some(0), None, None, None]);
}
