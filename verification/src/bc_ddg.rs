//! The data-dependence graph in the form the bitcode inspector writes: nodes
//! carry the function and block names, SSA names are parsed strictly, source
//! names come from the `!DILocalVariable` lines, and the graph is written as
//! hand-formatted JSON and DOT.
use vstd::prelude::*;
use crate::text::{chars_of, decimal, push_decimal, push_str, string_from};
use crate::render::{
    dot_escape_char_keep_newline, escape_with, join_all, join_sep, json_quoted,
    lemma_join_all_step, lemma_join_sep_step, push_dot_escaped, push_json_escaped, push_json_str,
};
pub use crate::ddg_graph::{
    ddg_output_paths, DdgOutputPaths, EdgeModel, GraphEdge, IrBlock, IrFunction, IrInstruction,
    IrOperand, OpcodeKind,
};
use crate::ddg_graph::{
    ddg_edges, edges_view, functions_sites, graph_matches, graph_names, node_model, opt_chars,
    opt_str, Site,
};

verus! {

/// A node of the graph: one instruction.
#[derive(Debug, Clone)]
pub struct GraphNode {
    pub id: usize,
    pub function: String,
    pub basic_block: String,
    pub opcode: String,
    pub ir: String,
    pub defines: Option<String>,
    pub define_value_key: Option<u64>,
    pub human_name: Option<String>,
}

/// A data-dependence graph.
#[derive(Debug, Clone)]
pub struct DdgGraph {
    pub nodes: Vec<GraphNode>,
    pub edges: Vec<GraphEdge>,
}

/// A node's contents as mathematical values.
pub struct PlainNodeModel {
    pub id: int,
    pub function: Seq<char>,
    pub basic_block: Seq<char>,
    pub opcode: Seq<char>,
    pub ir: Seq<char>,
    pub defines: Option<Seq<char>>,
    pub define_value_key: Option<u64>,
    pub human_name: Option<Seq<char>>,
}

impl View for GraphNode {
    type V = PlainNodeModel;

    open spec fn view(&self) -> PlainNodeModel {
        PlainNodeModel {
            id: self.id as int,
            function: self.function@,
            basic_block: self.basic_block@,
            opcode: self.opcode@,
            ir: self.ir@,
            defines: opt_chars(self.defines),
            define_value_key: self.define_value_key,
            human_name: opt_chars(self.human_name),
        }
    }
}

/// The fields of a full node that this graph keeps.
pub open spec fn plain_node(n: crate::ddg_graph::NodeModel) -> PlainNodeModel {
    PlainNodeModel {
        id: n.id,
        function: n.function,
        basic_block: n.basic_block,
        opcode: n.opcode,
        ir: n.ir,
        defines: n.defines,
        define_value_key: n.define_value_key,
        human_name: n.human_name,
    }
}

/// The nodes of a graph as models.
pub open spec fn plain_nodes_view(ns: Seq<GraphNode>) -> Seq<PlainNodeModel> {
    ns.map_values(|n: GraphNode| n@)
}

/// The graph of the given instructions.
pub open spec fn plain_graph_matches(
    g: DdgGraph,
    sites: Seq<Site>,
    names: Seq<(Seq<char>, Seq<char>)>,
) -> bool {
    &&& g.nodes@.len() == sites.len()
    &&& forall|i: int|
        0 <= i < sites.len() ==> #[trigger] g.nodes@[i]@ == plain_node(
            node_model(sites[i], i, names, true),
        )
    &&& edges_view(g.edges@) == ddg_edges(sites, sites.len() as int)
}

/// The data-dependence graph of the module's functions (all but the LLVM
/// intrinsics, or only the one `function_filter` names), with unnamed
/// functions and blocks recorded as `unnamed_function` / `unnamed_block`:
/// one node per instruction in module order and an edge from each value's
/// last definition to each use, from the last store through a pointer to
/// each load from it and to the next store to it.
pub fn build_ddg(functions: &Vec<IrFunction>, ir_text: &str, function_filter: Option<&str>) -> (g:
    DdgGraph)
    ensures
        plain_graph_matches(
            g,
            functions_sites(functions@, opt_str(function_filter), true),
            graph_names(ir_text@, true),
        ),
{
    let full = crate::ddg_graph::build_graph_plain(functions, ir_text, function_filter);
    let ghost sites = functions_sites(functions@, opt_str(function_filter), true);
    let ghost names = graph_names(ir_text@, true);
    let mut nodes: Vec<GraphNode> = Vec::new();
    let mut i: usize = 0;
    while i < full.nodes.len()
        invariant
            i <= full.nodes@.len(),
            graph_matches(full, sites, names, true),
            nodes@.len() == i,
            forall|k: int|
                0 <= k < i ==> #[trigger] nodes@[k]@ == plain_node(node_model(sites[k], k, names, true)),
        decreases full.nodes@.len() - i,
    {
        let n = &full.nodes[i];
        assert(full.nodes@[i as int]@ == node_model(sites[i as int], i as int, names, true));
        nodes.push(
            GraphNode {
                id: n.id,
                function: copy_text(&n.function),
                basic_block: copy_text(&n.basic_block),
                opcode: copy_text(&n.opcode),
                ir: copy_text(&n.ir),
                defines: copy_opt_text(&n.defines),
                define_value_key: n.define_value_key,
                human_name: copy_opt_text(&n.human_name),
            },
        );
        i += 1;
    }
    DdgGraph { nodes, edges: full.edges }
}

fn copy_text(s: &String) -> (r: String)
    ensures
        r@ == s@,
{
    string_from(chars_of(s.as_str()).as_slice())
}

fn copy_opt_text(s: &Option<String>) -> (r: Option<String>)
    ensures
        opt_chars(r) == opt_chars(*s),
{
    match s {
        Some(v) => Some(copy_text(v)),
        None => None,
    }
}

// ---------------------------------------------------------------------------
// JSON output
// ---------------------------------------------------------------------------

/// An optional text as a JSON string literal or `null`.
pub open spec fn json_opt(o: Option<Seq<char>>) -> Seq<char> {
    match o {
        Some(s) => json_quoted(s),
        None => "null"@,
    }
}

/// An optional number in JSON: its decimal form or `null`.
pub open spec fn json_opt_num(o: Option<u64>) -> Seq<char> {
    match o {
        Some(v) => decimal(v as nat),
        None => "null"@,
    }
}

/// The first half of a node's JSON object: id and names.
pub open spec fn json_node_names(n: PlainNodeModel) -> Seq<char> {
    "    {\"id\":"@ + decimal(n.id as nat) + ",\"function\":"@ + json_quoted(n.function)
        + ",\"basic_block\":"@ + json_quoted(n.basic_block) + ",\"opcode\":"@ + json_quoted(
        n.opcode,
    )
}

/// The second half of a node's JSON object: what it defines and its text.
pub open spec fn json_node_values(n: PlainNodeModel) -> Seq<char> {
    ",\"defines\":"@ + json_opt(n.defines) + ",\"define_value_key\":"@ + json_opt_num(
        n.define_value_key,
    ) + ",\"human_name\":"@ + json_opt(n.human_name) + ",\"ir\":"@ + json_quoted(n.ir) + "}"@
}

/// A node's JSON object, on one indented line.
pub open spec fn json_node(n: PlainNodeModel) -> Seq<char> {
    json_node_names(n) + json_node_values(n)
}

/// An edge's JSON object, on one indented line.
pub open spec fn json_edge(e: EdgeModel) -> Seq<char> {
    "    {\"from\":"@ + decimal(e.from as nat) + ",\"to\":"@ + decimal(e.to as nat) + ",\"kind\":"@
        + json_quoted(e.kind) + ",\"symbol\":"@ + json_quoted(e.symbol) + ",\"value_key\":"@
        + json_opt_num(e.value_key) + "}"@
}

/// The graph as a JSON document with a `nodes` and an `edges` array.
pub open spec fn graph_json(g: DdgGraph) -> Seq<char> {
    "{\n  \"nodes\": [\n"@ + join_sep(
        plain_nodes_view(g.nodes@),
        |n: PlainNodeModel| json_node(n),
        ",\n"@,
    ) + "\n  ],\n  \"edges\": [\n"@ + join_sep(
        edges_view(g.edges@),
        |e: EdgeModel| json_edge(e),
        ",\n"@,
    ) + "\n  ]\n}\n"@
}

fn push_json_opt(out: &mut Vec<char>, o: &Option<String>)
    ensures
        final(out)@ == old(out)@ + json_opt(opt_chars(*o)),
{
    match o {
        Some(s) => push_json_str(out, s.as_str()),
        None => push_str(out, "null"),
    }
}

fn push_json_opt_num(out: &mut Vec<char>, o: Option<u64>)
    ensures
        final(out)@ == old(out)@ + json_opt_num(o),
{
    match o {
        Some(v) => push_decimal(out, v),
        None => push_str(out, "null"),
    }
}

fn push_json_node_names(out: &mut Vec<char>, n: &GraphNode)
    ensures
        final(out)@ == old(out)@ + json_node_names(n@),
{
    push_str(out, "    {\"id\":");
    push_decimal(out, n.id as u64);
    push_str(out, ",\"function\":");
    push_json_str(out, n.function.as_str());
    push_str(out, ",\"basic_block\":");
    push_json_str(out, n.basic_block.as_str());
    push_str(out, ",\"opcode\":");
    push_json_str(out, n.opcode.as_str());
    assert(out@ =~= old(out)@ + json_node_names(n@));
}

fn push_json_node_values(out: &mut Vec<char>, n: &GraphNode)
    ensures
        final(out)@ == old(out)@ + json_node_values(n@),
{
    push_str(out, ",\"defines\":");
    push_json_opt(out, &n.defines);
    push_str(out, ",\"define_value_key\":");
    push_json_opt_num(out, n.define_value_key);
    push_str(out, ",\"human_name\":");
    push_json_opt(out, &n.human_name);
    push_str(out, ",\"ir\":");
    push_json_str(out, n.ir.as_str());
    push_str(out, "}");
    assert(out@ =~= old(out)@ + json_node_values(n@));
}

fn push_json_node(out: &mut Vec<char>, n: &GraphNode)
    ensures
        final(out)@ == old(out)@ + json_node(n@),
{
    push_json_node_names(out, n);
    push_json_node_values(out, n);
    assert(out@ =~= old(out)@ + json_node(n@));
}

fn push_json_edge(out: &mut Vec<char>, e: &GraphEdge)
    ensures
        final(out)@ == old(out)@ + json_edge(e@),
{
    push_str(out, "    {\"from\":");
    push_decimal(out, e.from as u64);
    push_str(out, ",\"to\":");
    push_decimal(out, e.to as u64);
    push_str(out, ",\"kind\":");
    push_json_str(out, e.kind.as_str());
    push_str(out, ",\"symbol\":");
    push_json_str(out, e.symbol.as_str());
    push_str(out, ",\"value_key\":");
    push_json_opt_num(out, e.value_key);
    push_str(out, "}");
    assert(out@ =~= old(out)@ + json_edge(e@));
}

/// The graph as a JSON document: one object per node (id, function, basic
/// block, opcode, defined SSA name, value key, source name, IR text) and one
/// per edge (from, to, kind, symbol, value key), `null` for absent values.
pub fn graph_to_json(graph: &DdgGraph) -> (r: String)
    ensures
        r@ == graph_json(*graph),
{
    let mut out: Vec<char> = Vec::new();
    push_str(&mut out, "{\n  \"nodes\": [\n");
    let ghost head = out@;
    let ghost nv = plain_nodes_view(graph.nodes@);
    let ghost fnode = |n: PlainNodeModel| json_node(n);
    let mut i: usize = 0;
    while i < graph.nodes.len()
        invariant
            i <= graph.nodes@.len(),
            nv == plain_nodes_view(graph.nodes@),
            fnode == (|n: PlainNodeModel| json_node(n)),
            out@ == head + join_sep(nv.take(i as int), fnode, ",\n"@),
        decreases graph.nodes@.len() - i,
    {
        proof { lemma_join_sep_step(nv, i as int, fnode, ",\n"@); }
        if i > 0 {
            push_str(&mut out, ",\n");
        }
        push_json_node(&mut out, &graph.nodes[i]);
        i += 1;
    }
    assert(nv.take(nv.len() as int) == nv);
    push_str(&mut out, "\n  ],\n  \"edges\": [\n");
    let ghost mid = out@;
    let ghost ev = edges_view(graph.edges@);
    let ghost fedge = |e: EdgeModel| json_edge(e);
    let mut j: usize = 0;
    while j < graph.edges.len()
        invariant
            j <= graph.edges@.len(),
            ev == edges_view(graph.edges@),
            fedge == (|e: EdgeModel| json_edge(e)),
            out@ == mid + join_sep(ev.take(j as int), fedge, ",\n"@),
        decreases graph.edges@.len() - j,
    {
        proof { lemma_join_sep_step(ev, j as int, fedge, ",\n"@); }
        if j > 0 {
            push_str(&mut out, ",\n");
        }
        push_json_edge(&mut out, &graph.edges[j]);
        j += 1;
    }
    assert(ev.take(ev.len() as int) == ev);
    push_str(&mut out, "\n  ]\n}\n");
    string_from(out.as_slice())
}

/// `s` as a JSON string literal: in double quotes, with `"`, `\`, newline,
/// carriage return and tab escaped and other control characters written as
/// `\u` and four hexadecimal digits.
pub fn json_escape(s: &str) -> (r: String)
    ensures
        r@ == json_quoted(s@),
{
    let mut out: Vec<char> = Vec::new();
    push_json_str(&mut out, s);
    string_from(out.as_slice())
}

// ---------------------------------------------------------------------------
// DOT output
// ---------------------------------------------------------------------------

/// `s` with backslashes and double quotes escaped.
pub open spec fn dot_escaped(s: Seq<char>) -> Seq<char> {
    escape_with(s, |c: char| dot_escape_char_keep_newline(c))
}

/// The label of a node: id, `function::block`, opcode and, when known, the
/// source name or else the SSA name, separated by `\n`.
pub open spec fn plain_dot_label(n: PlainNodeModel) -> Seq<char> {
    let human = match n.human_name {
        Some(h) => h,
        None => Seq::empty(),
    };
    let defines = match n.defines {
        Some(d) => d,
        None => Seq::empty(),
    };
    let base = decimal(n.id as nat) + "\\n"@ + n.function + "::"@ + n.basic_block + "\\n"@
        + n.opcode;
    if human.len() > 0 {
        base + "\\n"@ + human
    } else if defines.len() > 0 {
        base + "\\n"@ + defines
    } else {
        base
    }
}

/// A node's line in the DOT output.
pub open spec fn plain_dot_node(n: PlainNodeModel) -> Seq<char> {
    "  n"@ + decimal(n.id as nat) + " [label=\""@ + dot_escaped(plain_dot_label(n)) + "\"];\n"@
}

/// An edge's line in the DOT output, labelled `kind:symbol`.
pub open spec fn plain_dot_edge(e: EdgeModel) -> Seq<char> {
    "  n"@ + decimal(e.from as nat) + " -> n"@ + decimal(e.to as nat) + " [label=\""@ + dot_escaped(
        e.kind,
    ) + ":"@ + dot_escaped(e.symbol) + "\"];\n"@
}

/// The graph in Graphviz DOT form.
pub open spec fn plain_graph_dot(g: DdgGraph) -> Seq<char> {
    "digraph DDG {\n"@ + "  rankdir=LR;\n"@ + "  node [shape=box, fontsize=10];\n"@ + join_all(
        plain_nodes_view(g.nodes@),
        |n: PlainNodeModel| plain_dot_node(n),
    ) + join_all(edges_view(g.edges@), |e: EdgeModel| plain_dot_edge(e)) + "}\n"@
}

fn push_plain_dot_node(out: &mut Vec<char>, n: &GraphNode)
    ensures
        final(out)@ == old(out)@ + plain_dot_node(n@),
{
    let mut label: Vec<char> = Vec::new();
    push_decimal(&mut label, n.id as u64);
    push_str(&mut label, "\\n");
    push_str(&mut label, n.function.as_str());
    push_str(&mut label, "::");
    push_str(&mut label, n.basic_block.as_str());
    push_str(&mut label, "\\n");
    push_str(&mut label, n.opcode.as_str());
    let human = match &n.human_name {
        Some(h) => chars_of(h.as_str()),
        None => Vec::new(),
    };
    let defines = match &n.defines {
        Some(d) => chars_of(d.as_str()),
        None => Vec::new(),
    };
    if human.len() > 0 {
        push_str(&mut label, "\\n");
        crate::text::push_all(&mut label, human.as_slice());
    } else if defines.len() > 0 {
        push_str(&mut label, "\\n");
        crate::text::push_all(&mut label, defines.as_slice());
    }
    assert(label@ =~= plain_dot_label(n@));
    push_str(out, "  n");
    push_decimal(out, n.id as u64);
    push_str(out, " [label=\"");
    push_dot_escaped(out, label.as_slice(), false);
    push_str(out, "\"];\n");
    assert(out@ =~= old(out)@ + plain_dot_node(n@));
}

fn push_plain_dot_edge(out: &mut Vec<char>, e: &GraphEdge)
    ensures
        final(out)@ == old(out)@ + plain_dot_edge(e@),
{
    push_str(out, "  n");
    push_decimal(out, e.from as u64);
    push_str(out, " -> n");
    push_decimal(out, e.to as u64);
    push_str(out, " [label=\"");
    push_dot_escaped(out, chars_of(e.kind.as_str()).as_slice(), false);
    push_str(out, ":");
    push_dot_escaped(out, chars_of(e.symbol.as_str()).as_slice(), false);
    push_str(out, "\"];\n");
    assert(out@ =~= old(out)@ + plain_dot_edge(e@));
}

/// The graph in Graphviz DOT form: a boxed node per instruction and an edge
/// per dependence labelled `kind:symbol`.
pub fn graph_to_dot(graph: &DdgGraph) -> (r: String)
    ensures
        r@ == plain_graph_dot(*graph),
{
    let mut out: Vec<char> = Vec::new();
    push_str(&mut out, "digraph DDG {\n");
    push_str(&mut out, "  rankdir=LR;\n");
    push_str(&mut out, "  node [shape=box, fontsize=10];\n");
    let ghost head = out@;
    let ghost nv = plain_nodes_view(graph.nodes@);
    let ghost fnode = |n: PlainNodeModel| plain_dot_node(n);
    let mut i: usize = 0;
    while i < graph.nodes.len()
        invariant
            i <= graph.nodes@.len(),
            nv == plain_nodes_view(graph.nodes@),
            fnode == (|n: PlainNodeModel| plain_dot_node(n)),
            out@ == head + join_all(nv.take(i as int), fnode),
        decreases graph.nodes@.len() - i,
    {
        proof { lemma_join_all_step(nv, i as int, fnode); }
        push_plain_dot_node(&mut out, &graph.nodes[i]);
        i += 1;
    }
    assert(nv.take(nv.len() as int) == nv);
    let ghost mid = out@;
    let ghost ev = edges_view(graph.edges@);
    let ghost fedge = |e: EdgeModel| plain_dot_edge(e);
    let mut j: usize = 0;
    while j < graph.edges.len()
        invariant
            j <= graph.edges@.len(),
            ev == edges_view(graph.edges@),
            fedge == (|e: EdgeModel| plain_dot_edge(e)),
            out@ == mid + join_all(ev.take(j as int), fedge),
        decreases graph.edges@.len() - j,
    {
        proof { lemma_join_all_step(ev, j as int, fedge); }
        push_plain_dot_edge(&mut out, &graph.edges[j]);
        j += 1;
    }
    assert(ev.take(ev.len() as int) == ev);
    push_str(&mut out, "}\n");
    assert(out@ =~= plain_graph_dot(*graph));
    string_from(out.as_slice())
}

/// Escapes backslashes and double quotes for a DOT label.
pub fn dot_escape(s: &str) -> (r: String)
    ensures
        r@ == dot_escaped(s@),
{
    let mut out: Vec<char> = Vec::new();
    push_dot_escaped(&mut out, chars_of(s).as_slice(), false);
    string_from(out.as_slice())
}

} // verus!
