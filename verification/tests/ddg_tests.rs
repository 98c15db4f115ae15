use icsprism::bc_ddg;
use icsprism::ddg_graph::{
    build_ddg, ddg_output_paths, dot_esc, graph_to_dot, DdgGraph, GraphEdge, GraphNode, IrBlock,
    IrFunction, IrInstruction, IrOperand, OpcodeKind, opcode_kind,
};

fn op(key: u64, name: &str, printed: &str) -> Option<IrOperand> {
    Some(IrOperand { value_key: key, name: name.to_string(), printed: printed.to_string() })
}

fn inst(ir: &str, opcode: &str, kind: OpcodeKind, named: bool, key: u64, operands: Vec<Option<IrOperand>>) -> IrInstruction {
    assert_eq!(opcode_kind(opcode), kind);
    IrInstruction { ir: ir.to_string(), opcode: opcode.to_string(), named, value_key: key, operands }
}

fn module() -> Vec<IrFunction> {
    let a = || op(200, "a", "ptr %a");
    vec![
        IrFunction { name: Some("llvm.dbg.declare".to_string()), blocks: vec![] },
        IrFunction {
            name: Some("Main".to_string()),
            blocks: vec![IrBlock {
                name: Some("entry".to_string()),
                instructions: vec![
                    inst("  store i16 5, ptr %a", "Store", OpcodeKind::Store, false, 1, vec![op(100, "", "i16 5"), a()]),
                    inst("  %1 = load i16, ptr %a", "Load", OpcodeKind::Load, true, 301, vec![a()]),
                    inst(
                        "  %2 = getelementptr [4 x i16], ptr %arr, i16 0, i16 %1",
                        "GetElementPtr",
                        OpcodeKind::GetElementPtr,
                        true,
                        302,
                        vec![op(400, "arr", "ptr %arr"), op(101, "", "i16 0"), op(301, "1", "  %1 = load i16, ptr %a")],
                    ),
                    inst("  store i16 7, ptr %a", "Store", OpcodeKind::Store, false, 2, vec![op(102, "", "i16 7"), a()]),
                    inst("  call void @Foo(ptr %2)", "Call", OpcodeKind::Call, false, 3, vec![op(302, "2", "%2"), op(500, "Foo", "ptr @Foo")]),
                    inst("  call void @\"Bar\"(i16 1)", "Call", OpcodeKind::Call, false, 4, vec![op(103, "", "i16 1"), None]),
                ],
            }],
        },
    ]
}

fn edge_list(g: &DdgGraph) -> Vec<(usize, usize, String, String, Option<u64>)> {
    g.edges.iter().map(|e| (e.from, e.to, e.kind.clone(), e.symbol.clone(), e.value_key)).collect()
}

#[test]
fn ddg_nodes_and_edges() {
    let g = build_ddg(&module(), "", None);
    assert_eq!(g.nodes.len(), 6);
    let n = &g.nodes[2];
    assert_eq!((n.id, n.function.as_str(), n.basic_block.as_str(), n.opcode.as_str()), (2, "Main", "entry", "GetElementPtr"));
    assert_eq!(n.defines, Some("%2".to_string()));
    assert_eq!(n.define_value_key, Some(302));
    assert!(n.has_dynamic_index);
    assert!(!g.nodes[1].has_dynamic_index);
    assert_eq!(g.nodes[0].defines, None);
    assert_eq!(g.nodes[0].define_value_key, None);
    assert_eq!(g.nodes[4].callee, Some("Foo".to_string()));
    assert_eq!(g.nodes[5].callee, Some("Bar".to_string()));
    assert_eq!(g.nodes[1].callee, None);
    assert_eq!(
        edge_list(&g),
        vec![
            (0, 1, "data_memory".to_string(), "%a".to_string(), Some(200)),
            (1, 2, "data_ssa".to_string(), "%1".to_string(), Some(301)),
            (0, 3, "memory_overwrite".to_string(), "%a".to_string(), Some(200)),
            (2, 4, "data_ssa".to_string(), "%2".to_string(), Some(302)),
        ]
    );
    let filtered = build_ddg(&module(), "", Some("Other"));
    assert!(filtered.nodes.is_empty() && filtered.edges.is_empty());
}

#[test]
fn ddg_dot_text() {
    let g = DdgGraph {
        nodes: vec![GraphNode {
            id: 0,
            function: "Main".to_string(),
            basic_block: "entry".to_string(),
            opcode: "Load".to_string(),
            ir: "%1 = load".to_string(),
            defines: Some("%1".to_string()),
            define_value_key: Some(7),
            human_name: Some("Sp\"d".to_string()),
            callee: None,
            has_dynamic_index: true,
        }],
        edges: vec![GraphEdge { from: 0, to: 0, kind: "data_memory".to_string(), symbol: "%a".to_string(), value_key: None }],
    };
    assert_eq!(
        graph_to_dot(&g),
        "digraph DDG {\n  rankdir=LR;\n  node [shape=box fontsize=9];\n  n0 [label=\"0\\\\nLoad\\\\nSp\\\"d [dyn-idx]\"];\n  n0 -> n0 [label=\"data_memory\" style=dashed];\n}\n"
    );
    assert_eq!(dot_esc("a\\b\"c\nd"), "a\\\\b\\\"c\\nd");
}

#[test]
fn output_paths_take_extensions() {
    let p = ddg_output_paths("out/pipeline_ddg");
    assert_eq!(p.json_path, "out/pipeline_ddg.json");
    assert_eq!(p.dot_path, "out/pipeline_ddg.dot");
    let p = ddg_output_paths("out/prog.ll");
    assert_eq!(p.json_path, "out/prog.json");
}

#[test]
fn plain_ddg_and_json() {
    let ir_text = "  call void @llvm.dbg.value(metadata i16 %1, metadata !9, metadata !DIExpression())\n!9 = !DILocalVariable(name: \"Level\", scope: !1)\n";
    let g = bc_ddg::build_ddg(&module(), ir_text, Some("Main"));
    assert_eq!(g.nodes.len(), 6);
    assert_eq!(g.nodes[1].human_name, Some("Level".to_string()));
    assert_eq!(g.nodes[2].human_name, None);
    assert_eq!(g.edges.len(), 4);
    let small = bc_ddg::DdgGraph {
        nodes: vec![bc_ddg::GraphNode {
            id: 3,
            function: "Main".to_string(),
            basic_block: "entry".to_string(),
            opcode: "Load".to_string(),
            ir: "%1 = load\t\"x\"".to_string(),
            defines: Some("%1".to_string()),
            define_value_key: None,
            human_name: None,
        }],
        edges: vec![GraphEdge { from: 3, to: 4, kind: "data_ssa".to_string(), symbol: "%1".to_string(), value_key: Some(9) }],
    };
    assert_eq!(
        bc_ddg::graph_to_json(&small),
        "{\n  \"nodes\": [\n    {\"id\":3,\"function\":\"Main\",\"basic_block\":\"entry\",\"opcode\":\"Load\",\"defines\":\"%1\",\"define_value_key\":null,\"human_name\":null,\"ir\":\"%1 = load\\t\\\"x\\\"\"}\n  ],\n  \"edges\": [\n    {\"from\":3,\"to\":4,\"kind\":\"data_ssa\",\"symbol\":\"%1\",\"value_key\":9}\n  ]\n}\n"
    );
    assert_eq!(
        bc_ddg::graph_to_dot(&small),
        "digraph DDG {\n  rankdir=LR;\n  node [shape=box, fontsize=10];\n  n3 [label=\"3\\\\nMain::entry\\\\nLoad\\\\n%1\"];\n  n3 -> n4 [label=\"data_ssa:%1\"];\n}\n"
    );
    assert_eq!(bc_ddg::json_escape("a\u{1}b\r"), "\"a\\u0001b\\r\"");
    assert_eq!(bc_ddg::dot_escape("a\\\"\n"), "a\\\\\\\"\n");
}

#[test]
fn opcode_names_to_kinds() {
    assert_eq!(opcode_kind("Load"), OpcodeKind::Load);
    assert_eq!(opcode_kind("GetElementPtr"), OpcodeKind::GetElementPtr);
    assert_eq!(opcode_kind("Add"), OpcodeKind::Other);
    assert_eq!(opcode_kind("load"), OpcodeKind::Other);
}
