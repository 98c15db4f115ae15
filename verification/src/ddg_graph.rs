//! The data-dependence graph (DDG) of the instructions of an LLVM module:
//! one node per instruction, and edges from a value's definition to its uses,
//! from a store to the loads and stores through the same pointer.
//!
//! The module is read as plain data (`IrFunction`, `IrBlock`,
//! `IrInstruction`, `IrOperand`): names, printed text and the identity of
//! each value, as the LLVM bindings report them.
use vstd::prelude::*;
use std::collections::HashMap;
use crate::text::{
    chars_of, collect_some, decimal, eq_str, find, push_decimal, push_str, find_spec, is_ws, lemma_collect_some_step, lemma_find_from,
    push_all, slice_of, starts_with_char, starts_with_char_exec, string_from, strip_prefix_chars,
    strip_suffix_chars, trim_char, trim_start, trim_start_spec,
};
use crate::render::{
    dot_escape_char, escape_with, join_all, lemma_join_all_step, push_dot_escaped,
};
use crate::metadata::{
    build_ssa_name_map, dbg_value_alias_entries, extract_dbg_value_aliases, lookup,
    ssa_alias_entries, TextMap,
};
use crate::ir_names::{
    definition_ssa, has_llvm_prefix, llvm_intrinsic, parse_definition_ssa, parse_ssa_def,
    ssa_def_name,
};

verus! {

broadcast use vstd::std_specs::hash::group_hash_axioms;

// ---------------------------------------------------------------------------
// The module as plain data
// ---------------------------------------------------------------------------

/// The instruction opcodes the graph distinguishes.
#[derive(Debug, Clone, Copy, PartialEq, Eq, Structural)]
pub enum OpcodeKind {
    Load,
    Store,
    Call,
    GetElementPtr,
    Other,
}

/// The opcode kind an opcode's name (as `Load`, `Store`, `Call`,
/// `GetElementPtr` print) stands for.
pub open spec fn kind_of_opcode(opcode: Seq<char>) -> OpcodeKind {
    if opcode == "Load"@ {
        OpcodeKind::Load
    } else if opcode == "Store"@ {
        OpcodeKind::Store
    } else if opcode == "Call"@ {
        OpcodeKind::Call
    } else if opcode == "GetElementPtr"@ {
        OpcodeKind::GetElementPtr
    } else {
        OpcodeKind::Other
    }
}

/// The opcode kind of an opcode's name.
pub fn opcode_kind(opcode: &str) -> (k: OpcodeKind)
    ensures
        k == kind_of_opcode(opcode@),
{
    let c = chars_of(opcode);
    if eq_str(c.as_slice(), "Load") {
        OpcodeKind::Load
    } else if eq_str(c.as_slice(), "Store") {
        OpcodeKind::Store
    } else if eq_str(c.as_slice(), "Call") {
        OpcodeKind::Call
    } else if eq_str(c.as_slice(), "GetElementPtr") {
        OpcodeKind::GetElementPtr
    } else {
        OpcodeKind::Other
    }
}

/// The kind of an instruction, read from its opcode's name.
pub open spec fn inst_kind(inst: IrInstruction) -> OpcodeKind {
    kind_of_opcode(inst.opcode@)
}

/// A value used as an operand.
#[derive(Debug, Clone)]
pub struct IrOperand {
    /// Identity of the value (unique among the module's values).
    pub value_key: u64,
    /// Its name, empty when unnamed.
    pub name: String,
    /// Its printed IR text.
    pub printed: String,
}

/// One instruction.
#[derive(Debug, Clone)]
pub struct IrInstruction {
    /// The printed instruction.
    pub ir: String,
    /// The opcode's name, e.g. `Load`.
    pub opcode: String,
    /// Whether the instruction has a name (defines a value).
    pub named: bool,
    /// Identity of the value the instruction defines.
    pub value_key: u64,
    /// Its operands in order; `None` for an operand that is missing or is
    /// not a value (a basic block).
    pub operands: Vec<Option<IrOperand>>,
}

/// A basic block; `name` is `None` when it is not valid UTF-8.
#[derive(Debug, Clone)]
pub struct IrBlock {
    pub name: Option<String>,
    pub instructions: Vec<IrInstruction>,
}

/// A function; `name` is `None` when it is not valid UTF-8.
#[derive(Debug, Clone)]
pub struct IrFunction {
    pub name: Option<String>,
    pub blocks: Vec<IrBlock>,
}

// ---------------------------------------------------------------------------
// The graph
// ---------------------------------------------------------------------------

/// A DDG node: one instruction.
#[derive(Debug, Clone)]
pub struct GraphNode {
    pub id: usize,
    pub function: String,
    pub basic_block: String,
    pub opcode: String,
    /// Printed instruction.
    pub ir: String,
    /// SSA name the instruction defines (e.g. `%5`).
    pub defines: Option<String>,
    /// Identity of the defined value, used to connect definitions and uses.
    pub define_value_key: Option<u64>,
    /// Source variable name from the debug metadata (e.g. `LANG`).
    pub human_name: Option<String>,
    /// For calls: the callee's name.
    pub callee: Option<String>,
    /// A `getelementptr` with at least one index that is not a constant.
    pub has_dynamic_index: bool,
}

/// A DDG edge.
#[derive(Debug, Clone)]
pub struct GraphEdge {
    pub from: usize,
    pub to: usize,
    /// `data_ssa` (definition to use), `data_memory` (store to load through
    /// the same pointer) or `memory_overwrite` (store to store).
    pub kind: String,
    pub symbol: String,
    pub value_key: Option<u64>,
}

/// A data-dependence graph.
#[derive(Debug, Clone)]
pub struct DdgGraph {
    pub nodes: Vec<GraphNode>,
    pub edges: Vec<GraphEdge>,
}

/// The text of an optional string.
pub open spec fn opt_chars(o: Option<String>) -> Option<Seq<char>> {
    match o {
        Some(s) => Some(s@),
        None => None,
    }
}

/// A node's contents as mathematical values.
pub struct NodeModel {
    pub id: int,
    pub function: Seq<char>,
    pub basic_block: Seq<char>,
    pub opcode: Seq<char>,
    pub ir: Seq<char>,
    pub defines: Option<Seq<char>>,
    pub define_value_key: Option<u64>,
    pub human_name: Option<Seq<char>>,
    pub callee: Option<Seq<char>>,
    pub has_dynamic_index: bool,
}

/// An edge's contents as mathematical values.
pub struct EdgeModel {
    pub from: int,
    pub to: int,
    pub kind: Seq<char>,
    pub symbol: Seq<char>,
    pub value_key: Option<u64>,
}

impl View for GraphNode {
    type V = NodeModel;

    open spec fn view(&self) -> NodeModel {
        NodeModel {
            id: self.id as int,
            function: self.function@,
            basic_block: self.basic_block@,
            opcode: self.opcode@,
            ir: self.ir@,
            defines: opt_chars(self.defines),
            define_value_key: self.define_value_key,
            human_name: opt_chars(self.human_name),
            callee: opt_chars(self.callee),
            has_dynamic_index: self.has_dynamic_index,
        }
    }
}

impl View for GraphEdge {
    type V = EdgeModel;

    open spec fn view(&self) -> EdgeModel {
        EdgeModel {
            from: self.from as int,
            to: self.to as int,
            kind: self.kind@,
            symbol: self.symbol@,
            value_key: self.value_key,
        }
    }
}

/// The nodes of a graph as models.
pub open spec fn nodes_view(ns: Seq<GraphNode>) -> Seq<NodeModel> {
    ns.map_values(|n: GraphNode| n@)
}

/// The edges of a graph as models.
pub open spec fn edges_view(es: Seq<GraphEdge>) -> Seq<EdgeModel> {
    es.map_values(|e: GraphEdge| e@)
}

// ---------------------------------------------------------------------------
// Which instructions become nodes
// ---------------------------------------------------------------------------

/// An instruction together with the names of its function and block.
pub struct Site {
    pub function: Seq<char>,
    pub block: Seq<char>,
    pub inst: IrInstruction,
}

/// The name a function is recorded under: its name, or, when that is not
/// valid UTF-8, `unnamed_function` in the plain style and nothing (the
/// function is skipped) otherwise.
pub open spec fn function_label(f: IrFunction, plain: bool) -> Option<Seq<char>> {
    match f.name {
        Some(n) => Some(n@),
        None => if plain {
            Some("unnamed_function"@)
        } else {
            None
        },
    }
}

/// The name a block is recorded under.
pub open spec fn block_label(b: IrBlock, plain: bool) -> Seq<char> {
    match b.name {
        Some(n) => n@,
        None => if plain {
            "unnamed_block"@
        } else {
            "?"@
        },
    }
}

/// A function takes part unless it is an intrinsic or another function than
/// the one the filter names.
pub open spec fn function_selected(name: Seq<char>, filter: Option<Seq<char>>) -> bool {
    !llvm_intrinsic(name) && match filter {
        Some(f) => name == f,
        None => true,
    }
}

/// The instructions of one block.
pub open spec fn block_sites(fname: Seq<char>, b: IrBlock, plain: bool) -> Seq<Site> {
    b.instructions@.map_values(
        |ins: IrInstruction| Site { function: fname, block: block_label(b, plain), inst: ins },
    )
}

/// The instructions of some blocks, block after block.
pub open spec fn blocks_sites(fname: Seq<char>, bs: Seq<IrBlock>, plain: bool) -> Seq<Site>
    decreases bs.len(),
{
    if bs.len() == 0 {
        Seq::empty()
    } else {
        blocks_sites(fname, bs.drop_last(), plain) + block_sites(fname, bs.last(), plain)
    }
}

/// The instructions of the selected functions, in module order.
pub open spec fn functions_sites(fs: Seq<IrFunction>, filter: Option<Seq<char>>, plain: bool) -> Seq<
    Site,
>
    decreases fs.len(),
{
    if fs.len() == 0 {
        Seq::empty()
    } else {
        functions_sites(fs.drop_last(), filter, plain) + match function_label(fs.last(), plain) {
            Some(n) => if function_selected(n, filter) {
                blocks_sites(n, fs.last().blocks@, plain)
            } else {
                Seq::empty()
            },
            None => Seq::empty(),
        }
    }
}

// ---------------------------------------------------------------------------
// Edges
// ---------------------------------------------------------------------------

/// How an edge names the value it carries: `%name`, or the printed value
/// when it has no name.
pub open spec fn operand_symbol(v: IrOperand) -> Seq<char> {
    if v.name@.len() > 0 {
        seq!['%'] + v.name@
    } else {
        v.printed@
    }
}

/// Operand `k` of an instruction, `None` past the last one.
pub open spec fn operand_at(inst: IrInstruction, k: int) -> Option<IrOperand> {
    if 0 <= k < inst.operands@.len() {
        inst.operands@[k]
    } else {
        None
    }
}

/// The pointer a load reads (operand 0) or a store writes (operand 1).
pub open spec fn pointer_operand(inst: IrInstruction) -> Option<IrOperand> {
    match inst_kind(inst) {
        OpcodeKind::Load => operand_at(inst, 0),
        OpcodeKind::Store => operand_at(inst, 1),
        _ => None,
    }
}

/// The last instruction before position `i` that defines value `key`.
pub open spec fn def_before(sites: Seq<Site>, i: int, key: u64) -> Option<int>
    decreases i,
{
    if i <= 0 {
        None
    } else if sites[i - 1].inst.named && sites[i - 1].inst.value_key == key {
        Some(i - 1)
    } else {
        def_before(sites, i - 1, key)
    }
}

/// The last store before position `i` through pointer `key`.
pub open spec fn store_before(sites: Seq<Site>, i: int, key: u64) -> Option<int>
    decreases i,
{
    if i <= 0 {
        None
    } else if inst_kind(sites[i - 1].inst) == OpcodeKind::Store && match pointer_operand(
        sites[i - 1].inst,
    ) {
        Some(v) => v.value_key == key,
        None => false,
    } {
        Some(i - 1)
    } else {
        store_before(sites, i - 1, key)
    }
}

/// The definition-to-use edge operand `op` of instruction `i` gives.
pub open spec fn ssa_edge(sites: Seq<Site>, i: int, op: Option<IrOperand>) -> Option<EdgeModel> {
    match op {
        Some(v) => match def_before(sites, i, v.value_key) {
            Some(d) => Some(
                EdgeModel {
                    from: d,
                    to: i,
                    kind: "data_ssa"@,
                    symbol: operand_symbol(v),
                    value_key: Some(v.value_key),
                },
            ),
            None => None,
        },
        None => None,
    }
}

/// The definition-to-use edges into instruction `i`, one per operand whose
/// value an earlier instruction defines.
pub open spec fn ssa_edges(sites: Seq<Site>, i: int) -> Seq<EdgeModel> {
    collect_some(sites[i].inst.operands@, |op: Option<IrOperand>| ssa_edge(sites, i, op))
}

/// The memory edge into instruction `i`: from the last store through the
/// pointer it loads from (`data_memory`) or stores to (`memory_overwrite`).
pub open spec fn memory_edge(sites: Seq<Site>, i: int) -> Option<EdgeModel> {
    match pointer_operand(sites[i].inst) {
        Some(v) => match store_before(sites, i, v.value_key) {
            Some(s) => Some(
                EdgeModel {
                    from: s,
                    to: i,
                    kind: if inst_kind(sites[i].inst) == OpcodeKind::Load {
                        "data_memory"@
                    } else {
                        "memory_overwrite"@
                    },
                    symbol: operand_symbol(v),
                    value_key: Some(v.value_key),
                },
            ),
            None => None,
        },
        None => None,
    }
}

/// The edges into the first `n` instructions, in order.
pub open spec fn ddg_edges(sites: Seq<Site>, n: int) -> Seq<EdgeModel>
    decreases n,
{
    if n <= 0 {
        Seq::empty()
    } else {
        ddg_edges(sites, n - 1) + ssa_edges(sites, n - 1) + match memory_edge(sites, n - 1) {
            Some(e) => seq![e],
            None => Seq::empty(),
        }
    }
}

// ---------------------------------------------------------------------------
// Memory edges come from the latest store
// ---------------------------------------------------------------------------

/// Instruction `inst` stores through the pointer value `key` (its operand 1).
pub open spec fn stores_through(inst: IrInstruction, key: u64) -> bool {
    inst_kind(inst) == OpcodeKind::Store && match operand_at(inst, 1) {
        Some(v) => v.value_key == key,
        None => false,
    }
}

/// Instruction `inst` loads through the pointer value `key` (its operand 0).
pub open spec fn loads_through(inst: IrInstruction, key: u64) -> bool {
    inst_kind(inst) == OpcodeKind::Load && match operand_at(inst, 0) {
        Some(v) => v.value_key == key,
        None => false,
    }
}

proof fn lemma_store_before_is_latest(sites: Seq<Site>, i: int, key: u64)
    requires
        0 <= i <= sites.len(),
    ensures
        match store_before(sites, i, key) {
            Some(s) => 0 <= s < i && stores_through(sites[s].inst, key) && forall|j: int|
                s < j < i ==> !stores_through(#[trigger] sites[j].inst, key),
            None => forall|j: int| 0 <= j < i ==> !stores_through(#[trigger] sites[j].inst, key),
        },
    decreases i,
{
    if i > 0 {
        lemma_store_before_is_latest(sites, i - 1, key);
    }
}

proof fn lemma_collect_some_from<A, B>(s: Seq<A>, f: spec_fn(A) -> Option<B>)
    ensures
        forall|k: int| 0 <= k < collect_some(s, f).len() ==> exists|j: int|
            0 <= j < s.len() && f(s[j]) == Some(#[trigger] collect_some(s, f)[k]),
    decreases s.len(),
{
    if s.len() > 0 {
        lemma_collect_some_from(s.drop_last(), f);
        let c = collect_some(s.drop_last(), f);
        assert forall|k: int| 0 <= k < collect_some(s, f).len() implies exists|j: int|
            0 <= j < s.len() && f(s[j]) == Some(#[trigger] collect_some(s, f)[k]) by {
            if k < c.len() {
                let j = choose|j: int| 0 <= j < s.drop_last().len() && f(s.drop_last()[j]) == Some(c[k]);
                assert(s[j] == s.drop_last()[j]);
            } else {
                assert(f(s[s.len() - 1]) == Some(collect_some(s, f)[k]));
            }
        }
    }
}

/// A memory edge: `data_memory` (store to load) or `memory_overwrite`
/// (store to store).
pub open spec fn is_memory_kind(kind: Seq<char>) -> bool {
    kind == "data_memory"@ || kind == "memory_overwrite"@
}

/// What every memory edge among `es` on the instructions `sites` satisfies:
/// it carries a pointer `p`, comes from an earlier store through `p` with no
/// other store through `p` in between, and goes to a load through `p`
/// (`data_memory`) or a store through `p` (`memory_overwrite`).
pub open spec fn memory_edges_from_latest_store(sites: Seq<Site>, es: Seq<EdgeModel>) -> bool {
    forall|k: int|
        0 <= k < es.len() && is_memory_kind(#[trigger] es[k].kind) ==> {
            let e = es[k];
            &&& e.value_key is Some
            &&& 0 <= e.from < e.to < sites.len()
            &&& stores_through(sites[e.from].inst, e.value_key.unwrap())
            &&& forall|j: int| e.from < j < e.to ==> !stores_through(#[trigger] sites[j].inst, e.value_key.unwrap())
            &&& (e.kind == "data_memory"@ ==> loads_through(sites[e.to].inst, e.value_key.unwrap()))
            &&& (e.kind == "memory_overwrite"@ ==> stores_through(sites[e.to].inst, e.value_key.unwrap()))
        }
}

proof fn lemma_ddg_memory_edges(sites: Seq<Site>, n: int)
    requires
        0 <= n <= sites.len(),
    ensures
        memory_edges_from_latest_store(sites, ddg_edges(sites, n)),
        forall|k: int| 0 <= k < ddg_edges(sites, n).len() ==> (#[trigger] ddg_edges(sites, n)[k]).to < n,
    decreases n,
{
    reveal_strlit("data_ssa");
    reveal_strlit("data_memory");
    reveal_strlit("memory_overwrite");
    assert("data_memory"@.len() != "memory_overwrite"@.len());
    assert("data_memory"@ != "memory_overwrite"@);
    if n > 0 {
        lemma_ddg_memory_edges(sites, n - 1);
        let i = n - 1;
        let a = ddg_edges(sites, i);
        let f = |op: Option<IrOperand>| ssa_edge(sites, i, op);
        let b = ssa_edges(sites, i);
        assert(b == collect_some(sites[i].inst.operands@, f));
        lemma_collect_some_from(sites[i].inst.operands@, f);
        let c = match memory_edge(sites, i) {
            Some(e) => seq![e],
            None => Seq::<EdgeModel>::empty(),
        };
        let es = ddg_edges(sites, n);
        assert(es == a + b + c);
        assert forall|k: int| a.len() <= k < a.len() + b.len() implies (#[trigger] es[k]).kind == "data_ssa"@
            && es[k].to == i by {
            let j = choose|j: int|
                0 <= j < sites[i].inst.operands@.len() && f(sites[i].inst.operands@[j]) == Some(
                    #[trigger] collect_some(sites[i].inst.operands@, f)[k - a.len()],
                );
            assert(es[k] == b[k - a.len()]);
        }
        match memory_edge(sites, i) {
            Some(e) => {
                let v = pointer_operand(sites[i].inst).unwrap();
                lemma_store_before_is_latest(sites, i, v.value_key);
            },
            None => {},
        }
        assert forall|k: int| 0 <= k < es.len() && is_memory_kind(#[trigger] es[k].kind) implies {
            let e = es[k];
            &&& e.value_key is Some
            &&& 0 <= e.from < e.to < sites.len()
            &&& stores_through(sites[e.from].inst, e.value_key.unwrap())
            &&& forall|j: int| e.from < j < e.to ==> !stores_through(#[trigger] sites[j].inst, e.value_key.unwrap())
            &&& (e.kind == "data_memory"@ ==> loads_through(sites[e.to].inst, e.value_key.unwrap()))
            &&& (e.kind == "memory_overwrite"@ ==> stores_through(sites[e.to].inst, e.value_key.unwrap()))
        } by {
            if k < a.len() {
                assert(es[k] == a[k]);
            } else if k < a.len() + b.len() {
                assert(es[k].kind == "data_ssa"@);
                assert(es[k].kind.len() == 8);
                assert(false);
            } else {
                assert(es[k] == c[0]);
                let v = pointer_operand(sites[i].inst).unwrap();
                let s = store_before(sites, i, v.value_key).unwrap();
                assert(es[k].from == s);
                assert(es[k].to == i);
                assert(es[k].value_key == Some(v.value_key));
                assert(stores_through(sites[s].inst, v.value_key));
                if es[k].kind == "data_memory"@ {
                    assert(inst_kind(sites[i].inst) == OpcodeKind::Load);
                    assert(loads_through(sites[i].inst, v.value_key));
                }
                if es[k].kind == "memory_overwrite"@ {
                    assert(inst_kind(sites[i].inst) != OpcodeKind::Load);
                    assert(stores_through(sites[i].inst, v.value_key));
                }
            }
        }
        assert forall|k: int| 0 <= k < es.len() implies (#[trigger] es[k]).to < n by {
            if k < a.len() {
                assert(es[k] == a[k]);
            } else if k >= a.len() + b.len() {
                assert(es[k] == c[0]);
            }
        }
    }
}

/// In a data-dependence graph (either style), every memory edge on pointer
/// `p` comes from a store through `p` with no other store through `p`
/// between it and the edge's target, so a load depends on the latest store
/// before it, and a store overwrites the latest store before it; its target
/// is a load (`data_memory`) or store (`memory_overwrite`) through `p`.
pub proof fn lemma_memory_edges_come_from_latest_store(es: Seq<GraphEdge>, sites: Seq<Site>)
    requires
        edges_view(es) == ddg_edges(sites, sites.len() as int),
    ensures
        memory_edges_from_latest_store(sites, edges_view(es)),
{
    lemma_ddg_memory_edges(sites, sites.len() as int);
}

// ---------------------------------------------------------------------------
// Nodes
// ---------------------------------------------------------------------------

/// The end of a callee name: the first `(`, space or newline.
pub open spec fn callee_end(s: Seq<char>) -> nat
    decreases s.len(),
{
    if s.len() == 0 {
        0
    } else if s[0] == '(' || s[0] == ' ' || s[0] == '\n' {
        0
    } else {
        1 + callee_end(s.drop_first())
    }
}

/// The callee named after the first `@` of a call's text, without quotes.
pub open spec fn callee_from_text(ir: Seq<char>) -> Option<Seq<char>> {
    match find_spec(ir, seq!['@']) {
        Some(a) => {
            let rest = ir.skip(a + 1);
            let name = strip_suffix_chars(
                strip_prefix_chars(rest.take(callee_end(rest) as int), '"'),
                '"',
            );
            if name.len() > 0 {
                Some(name)
            } else {
                None
            }
        },
        None => None,
    }
}

/// The callee of a call: the name of its last operand, or else the name
/// after `@` in its text.
pub open spec fn callee_of(inst: IrInstruction) -> Option<Seq<char>> {
    if inst_kind(inst) != OpcodeKind::Call {
        None
    } else {
        let n = inst.operands@.len();
        let from_operand = if n > 0 {
            match inst.operands@[n - 1] {
                Some(v) => if v.name@.len() > 0 {
                    Some(v.name@)
                } else {
                    None
                },
                None => None,
            }
        } else {
            None
        };
        match from_operand {
            Some(c) => Some(c),
            None => callee_from_text(inst.ir@),
        }
    }
}

/// A `getelementptr` one of whose index operands (operand 1 on) prints as an
/// SSA value.
pub open spec fn dynamic_gep(inst: IrInstruction) -> bool {
    inst_kind(inst) == OpcodeKind::GetElementPtr && exists|k: int|
        1 <= k < inst.operands@.len() && match #[trigger] inst.operands@[k] {
            Some(v) => starts_with_char(trim_start_spec(v.printed@), '%'),
            None => false,
        }
}

/// The SSA name an instruction defines: the strict parser in the plain
/// style, the Unicode-tolerant one otherwise.
pub open spec fn defined_name(ir: Seq<char>, plain: bool) -> Option<Seq<char>> {
    if plain {
        definition_ssa(ir)
    } else {
        ssa_def_name(ir)
    }
}

/// The node for the instruction at position `id`, with `names` mapping SSA
/// names to source names.
pub open spec fn node_model(
    s: Site,
    id: int,
    names: Seq<(Seq<char>, Seq<char>)>,
    plain: bool,
) -> NodeModel {
    let defines = defined_name(s.inst.ir@, plain);
    NodeModel {
        id: id,
        function: s.function,
        basic_block: s.block,
        opcode: s.inst.opcode@,
        ir: s.inst.ir@,
        defines: defines,
        define_value_key: if s.inst.named {
            Some(s.inst.value_key)
        } else {
            None
        },
        human_name: match defines {
            Some(d) => lookup(names, d),
            None => None,
        },
        callee: callee_of(s.inst),
        has_dynamic_index: dynamic_gep(s.inst),
    }
}

/// The source-name map the graph uses for the IR text.
pub open spec fn graph_names(ir_text: Seq<char>, plain: bool) -> Seq<(Seq<char>, Seq<char>)> {
    if plain {
        dbg_value_alias_entries(ir_text)
    } else {
        ssa_alias_entries(ir_text)
    }
}

/// The whole graph: one node per selected instruction and the edges into
/// them.
pub open spec fn graph_matches(
    g: DdgGraph,
    sites: Seq<Site>,
    names: Seq<(Seq<char>, Seq<char>)>,
    plain: bool,
) -> bool {
    &&& g.nodes@.len() == sites.len()
    &&& forall|i: int|
        0 <= i < sites.len() ==> #[trigger] g.nodes@[i]@ == node_model(sites[i], i, names, plain)
    &&& edges_view(g.edges@) == ddg_edges(sites, sites.len() as int)
}

// ---------------------------------------------------------------------------
// Extending the list of instructions leaves earlier results unchanged
// ---------------------------------------------------------------------------

proof fn lemma_def_before_push(p: Seq<Site>, x: Site, i: int, key: u64)
    requires
        0 <= i <= p.len(),
    ensures
        def_before(p.push(x), i, key) == def_before(p, i, key),
    decreases i,
{
    if i > 0 {
        assert(p.push(x)[i - 1] == p[i - 1]);
        lemma_def_before_push(p, x, i - 1, key);
    }
}

proof fn lemma_store_before_push(p: Seq<Site>, x: Site, i: int, key: u64)
    requires
        0 <= i <= p.len(),
    ensures
        store_before(p.push(x), i, key) == store_before(p, i, key),
    decreases i,
{
    if i > 0 {
        assert(p.push(x)[i - 1] == p[i - 1]);
        lemma_store_before_push(p, x, i - 1, key);
    }
}

proof fn lemma_edges_at_push(p: Seq<Site>, x: Site, i: int)
    requires
        0 <= i < p.len(),
    ensures
        ssa_edges(p.push(x), i) == ssa_edges(p, i),
        memory_edge(p.push(x), i) == memory_edge(p, i),
{
    let q = p.push(x);
    assert(q[i] == p[i]);
    let f = |op: Option<IrOperand>| ssa_edge(q, i, op);
    let g = |op: Option<IrOperand>| ssa_edge(p, i, op);
    assert forall|op: Option<IrOperand>| #[trigger] f(op) == g(op) by {
        if let Some(v) = op {
            lemma_def_before_push(p, x, i, v.value_key);
        }
    }
    assert(f =~= g);
    if let Some(v) = pointer_operand(p[i].inst) {
        lemma_store_before_push(p, x, i, v.value_key);
    }
}

proof fn lemma_ddg_edges_push(p: Seq<Site>, x: Site, n: int)
    requires
        0 <= n <= p.len(),
    ensures
        ddg_edges(p.push(x), n) == ddg_edges(p, n),
    decreases n,
{
    if n > 0 {
        lemma_ddg_edges_push(p, x, n - 1);
        lemma_edges_at_push(p, x, n - 1);
    }
}

// ---------------------------------------------------------------------------
// Building the graph
// ---------------------------------------------------------------------------

/// A `String` with the characters of `s`.
pub fn text_of(s: &str) -> (r: String)
    ensures
        r@ == s@,
{
    string_from(chars_of(s).as_slice())
}

/// A copy of an optional character sequence as an optional `String`.
fn opt_string(o: &Option<Vec<char>>) -> (r: Option<String>)
    ensures
        match o {
            Some(v) => opt_chars(r) == Some(v@),
            None => r is None,
        },
{
    match o {
        Some(v) => Some(string_from(v.as_slice())),
        None => None,
    }
}

/// The symbol of an operand value.
fn val_symbol(v: &IrOperand) -> (r: String)
    ensures
        r@ == operand_symbol(*v),
{
    let name = chars_of(v.name.as_str());
    if name.len() > 0 {
        let mut out: Vec<char> = vec!['%'];
        push_all(&mut out, name.as_slice());
        string_from(out.as_slice())
    } else {
        text_of(v.printed.as_str())
    }
}

fn operand_at_exec(inst: &IrInstruction, k: usize) -> (r: Option<&IrOperand>)
    ensures
        match r {
            Some(v) => operand_at(*inst, k as int) == Some(*v),
            None => operand_at(*inst, k as int) is None,
        },
{
    if k < inst.operands.len() {
        match &inst.operands[k] {
            Some(v) => Some(v),
            None => None,
        }
    } else {
        None
    }
}

fn memory_pointer_key(inst: &IrInstruction) -> (r: Option<&IrOperand>)
    ensures
        match r {
            Some(v) => pointer_operand(*inst) == Some(*v),
            None => pointer_operand(*inst) is None,
        },
{
    match opcode_kind(inst.opcode.as_str()) {
        OpcodeKind::Load => operand_at_exec(inst, 0),
        OpcodeKind::Store => operand_at_exec(inst, 1),
        _ => None,
    }
}

fn callee_from_text_exec(ir: &[char]) -> (r: Option<String>)
    ensures
        opt_chars(r) == callee_from_text(ir@),
{
    let at: Vec<char> = vec!['@'];
    assert(at@ == seq!['@']);
    let a = match find(ir, at.as_slice()) {
        Some(a) => a,
        None => return None,
    };
    proof { lemma_find_from(ir@, seq!['@'], 0); }
    let n = ir.len();
    let rest = slice_of(ir, a + 1, n);
    let mut e: usize = 0;
    assert(rest@.skip(0) == rest@);
    while e < rest.len() && !(rest[e] == '(' || rest[e] == ' ' || rest[e] == '\n')
        invariant
            e <= rest@.len(),
            callee_end(rest@) == e + callee_end(rest@.skip(e as int)),
        decreases rest@.len() - e,
    {
        assert(rest@.skip(e as int).drop_first() == rest@.skip(e + 1));
        e += 1;
    }
    proof {
        if e < rest@.len() {
            assert(rest@.skip(e as int)[0] == rest@[e as int]);
        }
    }
    let head = slice_of(rest.as_slice(), 0, e);
    let name = trim_char(head.as_slice(), '"');
    if name.len() > 0 {
        Some(string_from(name.as_slice()))
    } else {
        None
    }
}

/// The callee of a call instruction.
fn extract_callee(inst: &IrInstruction) -> (r: Option<String>)
    ensures
        opt_chars(r) == callee_of(*inst),
{
    match opcode_kind(inst.opcode.as_str()) {
        OpcodeKind::Call => {},
        _ => return None,
    }
    let n = inst.operands.len();
    if n > 0 {
        match &inst.operands[n - 1] {
            Some(v) => {
                let nm = chars_of(v.name.as_str());
                if nm.len() > 0 {
                    return Some(string_from(nm.as_slice()));
                }
            },
            None => {},
        }
    }
    callee_from_text_exec(chars_of(inst.ir.as_str()).as_slice())
}

/// Whether a `getelementptr` has an index operand that is an SSA value.
fn is_dynamic_gep(inst: &IrInstruction) -> (b: bool)
    ensures
        b == dynamic_gep(*inst),
{
    match opcode_kind(inst.opcode.as_str()) {
        OpcodeKind::GetElementPtr => {},
        _ => return false,
    }
    let mut k: usize = 1;
    while k < inst.operands.len()
        invariant
            1 <= k,
            inst_kind(*inst) == OpcodeKind::GetElementPtr,
            forall|j: int|
                1 <= j < k && j < inst.operands@.len() ==> !match #[trigger] inst.operands@[j] {
                    Some(v) => starts_with_char(trim_start_spec(v.printed@), '%'),
                    None => false,
                },
        decreases inst.operands@.len() - k,
    {
        match &inst.operands[k] {
            Some(v) => {
                let t = trim_start(chars_of(v.printed.as_str()).as_slice());
                if starts_with_char_exec(t.as_slice(), '%') {
                    assert(match inst.operands@[k as int] {
                        Some(v) => starts_with_char(trim_start_spec(v.printed@), '%'),
                        None => false,
                    });
                    return true;
                }
            },
            None => {},
        }
        k += 1;
    }
    false
}

/// The definition and store positions known after some instructions: for
/// each value the last instruction that defines it, for each pointer the
/// last store through it.
pub open spec fn maps_match(defs: Map<u64, usize>, stores: Map<u64, usize>, sites: Seq<Site>) -> bool {
    &&& forall|k: u64| #[trigger]
        defs.contains_key(k) <==> def_before(sites, sites.len() as int, k) is Some
    &&& forall|k: u64| #[trigger]
        defs.contains_key(k) ==> Some(defs[k] as int) == def_before(sites, sites.len() as int, k)
    &&& forall|k: u64| #[trigger]
        stores.contains_key(k) <==> store_before(sites, sites.len() as int, k) is Some
    &&& forall|k: u64| #[trigger]
        stores.contains_key(k) ==> Some(stores[k] as int) == store_before(
            sites,
            sites.len() as int,
            k,
        )
}

/// Adds the node for one instruction and the edges into it.
#[verifier::rlimit(40)]
fn add_instruction(
    g: &mut DdgGraph,
    defs: &mut HashMap<u64, usize>,
    stores: &mut HashMap<u64, usize>,
    fname: &[char],
    bname: &[char],
    inst: &IrInstruction,
    names: &TextMap,
    plain: bool,
    Ghost(sites): Ghost<Seq<Site>>,
)
    requires
        maps_match(old(defs)@, old(stores)@, sites),
        graph_matches(*old(g), sites, names.view_entries(), plain),
    ensures
        ({
            let s2 = sites.push(Site { function: fname@, block: bname@, inst: *inst });
            &&& graph_matches(*final(g), s2, names.view_entries(), plain)
            &&& maps_match(final(defs)@, final(stores)@, s2)
        }),
{
    let ghost x = Site { function: fname@, block: bname@, inst: *inst };
    let ghost s2 = sites.push(x);
    let ghost nv = names.view_entries();
    let id = g.nodes.len();
    assert(s2[id as int] == x);
    // the node
    let irc = chars_of(inst.ir.as_str());
    let defines = if plain {
        parse_definition_ssa(irc.as_slice())
    } else {
        parse_ssa_def(irc.as_slice())
    };
    let human = match &defines {
        Some(d) => names.get(d.as_slice()),
        None => None,
    };
    let node = GraphNode {
        id,
        function: string_from(fname),
        basic_block: string_from(bname),
        opcode: text_of(inst.opcode.as_str()),
        ir: text_of(inst.ir.as_str()),
        defines: opt_string(&defines),
        define_value_key: if inst.named {
            Some(inst.value_key)
        } else {
            None
        },
        human_name: human,
        callee: extract_callee(inst),
        has_dynamic_index: is_dynamic_gep(inst),
    };
    assert(node@ == node_model(x, id as int, nv, plain));
    let ghost nodes0 = g.nodes@;
    g.nodes.push(node);
    assert forall|i: int| 0 <= i < s2.len() implies #[trigger] g.nodes@[i]@ == node_model(
        s2[i],
        i,
        nv,
        plain,
    ) by {
        if i < id {
            assert(g.nodes@[i] == nodes0[i]);
            assert(s2[i] == sites[i]);
        }
    }
    // definition-to-use edges
    proof {
        lemma_ddg_edges_push(sites, x, id as int);
    }
    let ghost e0 = edges_view(g.edges@);
    let ghost nodes1 = g.nodes@;
    let ghost ops = inst.operands@;
    let ghost f = |op: Option<IrOperand>| ssa_edge(s2, id as int, op);
    let mut o: usize = 0;
    while o < inst.operands.len()
        invariant
            o <= ops.len(),
            ops == inst.operands@,
            s2 == sites.push(x),
            x.inst == *inst,
            id == sites.len(),
            f == (|op: Option<IrOperand>| ssa_edge(s2, id as int, op)),
            maps_match(defs@, stores@, sites),
            g.nodes@ == nodes1,
            edges_view(g.edges@) == e0 + collect_some(ops.take(o as int), f),
        decreases ops.len() - o,
    {
        proof { lemma_collect_some_step(ops, o as int, f); }
        match &inst.operands[o] {
            Some(v) => {
                proof { lemma_def_before_push(sites, x, id as int, v.value_key); }
                match defs.get(&v.value_key) {
                    Some(d) => {
                        let e = GraphEdge {
                            from: *d,
                            to: id,
                            kind: text_of("data_ssa"),
                            symbol: val_symbol(v),
                            value_key: Some(v.value_key),
                        };
                        let ghost before = g.edges@;
                        g.edges.push(e);
                        assert(edges_view(g.edges@) =~= edges_view(before).push(e@));
                    },
                    None => {},
                }
            },
            None => {},
        }
        o += 1;
    }
    assert(ops.take(ops.len() as int) == ops);
    assert(collect_some(ops, f) == ssa_edges(s2, id as int));
    // the memory edge and the store it records
    let ghost e1 = edges_view(g.edges@);
    let ptr = memory_pointer_key(inst);
    match ptr {
        Some(v) => {
            proof { lemma_store_before_push(sites, x, id as int, v.value_key); }
            match stores.get(&v.value_key) {
                Some(sidx) => {
                    let kind = match opcode_kind(inst.opcode.as_str()) {
                        OpcodeKind::Load => text_of("data_memory"),
                        _ => text_of("memory_overwrite"),
                    };
                    let e = GraphEdge {
                        from: *sidx,
                        to: id,
                        kind,
                        symbol: val_symbol(v),
                        value_key: Some(v.value_key),
                    };
                    let ghost before = g.edges@;
                    g.edges.push(e);
                    assert(edges_view(g.edges@) =~= edges_view(before).push(e@));
                },
                None => {},
            }
        },
        None => {},
    }
    assert(edges_view(g.edges@) == ddg_edges(s2, s2.len() as int));
    let ghost stores0 = stores@;
    let ghost defs0 = defs@;
    match opcode_kind(inst.opcode.as_str()) {
        OpcodeKind::Store => match ptr {
            Some(v) => {
                stores.insert(v.value_key, id);
            },
            None => {},
        },
        _ => {},
    }
    if inst.named {
        defs.insert(inst.value_key, id);
    }
    assert forall|k: u64| #[trigger] defs@.contains_key(k) <==> def_before(
        s2,
        s2.len() as int,
        k,
    ) is Some by {
        lemma_def_before_push(sites, x, id as int, k);
    }
    assert forall|k: u64| #[trigger] defs@.contains_key(k) implies Some(defs@[k] as int)
        == def_before(s2, s2.len() as int, k) by {
        lemma_def_before_push(sites, x, id as int, k);
    }
    assert forall|k: u64| #[trigger] stores@.contains_key(k) <==> store_before(
        s2,
        s2.len() as int,
        k,
    ) is Some by {
        lemma_store_before_push(sites, x, id as int, k);
    }
    assert forall|k: u64| #[trigger] stores@.contains_key(k) implies Some(stores@[k] as int)
        == store_before(s2, s2.len() as int, k) by {
        lemma_store_before_push(sites, x, id as int, k);
    }
}

/// The text of an optional string slice.
pub open spec fn opt_str(o: Option<&str>) -> Option<Seq<char>> {
    match o {
        Some(s) => Some(s@),
        None => None,
    }
}

fn block_label_exec(b: &IrBlock, plain: bool) -> (r: Vec<char>)
    ensures
        r@ == block_label(*b, plain),
{
    match &b.name {
        Some(n) => chars_of(n.as_str()),
        None => if plain {
            chars_of("unnamed_block")
        } else {
            chars_of("?")
        },
    }
}

fn function_label_exec(f: &IrFunction, plain: bool) -> (r: Option<Vec<char>>)
    ensures
        match r {
            Some(v) => function_label(*f, plain) == Some(v@),
            None => function_label(*f, plain) is None,
        },
{
    match &f.name {
        Some(n) => Some(chars_of(n.as_str())),
        None => if plain {
            Some(chars_of("unnamed_function"))
        } else {
            None
        },
    }
}

/// Builds the graph of the selected functions, naming nodes from `names`.
fn build_graph(functions: &Vec<IrFunction>, ir_text: &str, filter: Option<&str>, plain: bool) -> (g:
    DdgGraph)
    ensures
        graph_matches(
            g,
            functions_sites(functions@, opt_str(filter), plain),
            graph_names(ir_text@, plain),
            plain,
        ),
{
    let names = if plain {
        extract_dbg_value_aliases(ir_text)
    } else {
        build_ssa_name_map(ir_text)
    };
    let ghost nv = names.view_entries();
    let ghost fv = opt_str(filter);
    let ghost fs = functions@;
    let mut g = DdgGraph { nodes: Vec::new(), edges: Vec::new() };
    let mut defs: HashMap<u64, usize> = HashMap::new();
    let mut stores: HashMap<u64, usize> = HashMap::new();
    let ghost mut done: Seq<Site> = Seq::empty();
    assert(functions_sites(fs.take(0), fv, plain) == done);
    assert(edges_view(g.edges@) =~= Seq::<EdgeModel>::empty());
    assert(ddg_edges(done, 0) == Seq::<EdgeModel>::empty());
    let mut fi: usize = 0;
    while fi < functions.len()
        invariant
            fi <= fs.len(),
            fs == functions@,
            fv == opt_str(filter),
            nv == names.view_entries(),
            nv == graph_names(ir_text@, plain),
            done == functions_sites(fs.take(fi as int), fv, plain),
            graph_matches(g, done, nv, plain),
            maps_match(defs@, stores@, done),
        decreases fs.len() - fi,
    {
        let f = &functions[fi];
        assert(fs.take(fi + 1).drop_last() == fs.take(fi as int));
        assert(fs.take(fi + 1).last() == *f);
        match function_label_exec(f, plain) {
            None => {},
            Some(fname) => {
                let selected = !has_llvm_prefix(fname.as_slice()) && match filter {
                    Some(ft) => crate::text::eq_str(fname.as_slice(), ft),
                    None => true,
                };
                if selected {
                    let ghost base = done;
                    let ghost bs = f.blocks@;
                    assert(blocks_sites(fname@, bs.take(0), plain) == Seq::<Site>::empty());
                    assert(done == base + blocks_sites(fname@, bs.take(0), plain));
                    let mut bi: usize = 0;
                    while bi < f.blocks.len()
                        invariant
                            bi <= bs.len(),
                            bs == f.blocks@,
                            nv == names.view_entries(),
                            done == base + blocks_sites(fname@, bs.take(bi as int), plain),
                            graph_matches(g, done, nv, plain),
                            maps_match(defs@, stores@, done),
                        decreases bs.len() - bi,
                    {
                        let b = &f.blocks[bi];
                        let bname = block_label_exec(b, plain);
                        let ghost base2 = done;
                        let ghost bsites = block_sites(fname@, *b, plain);
                        assert(bsites.take(0) == Seq::<Site>::empty());
                        assert(done == base2 + bsites.take(0));
                        let mut ii: usize = 0;
                        while ii < b.instructions.len()
                            invariant
                                ii <= b.instructions@.len(),
                                bsites == block_sites(fname@, *b, plain),
                                bname@ == block_label(*b, plain),
                                nv == names.view_entries(),
                                done == base2 + bsites.take(ii as int),
                                graph_matches(g, done, nv, plain),
                                maps_match(defs@, stores@, done),
                            decreases b.instructions@.len() - ii,
                        {
                            let inst = &b.instructions[ii];
                            add_instruction(
                                &mut g,
                                &mut defs,
                                &mut stores,
                                fname.as_slice(),
                                bname.as_slice(),
                                inst,
                                &names,
                                plain,
                                Ghost(done),
                            );
                            proof {
                                let x = Site { function: fname@, block: bname@, inst: *inst };
                                assert(bsites.take(ii + 1) =~= bsites.take(ii as int).push(x));
                                done = done.push(x);
                            }
                            ii += 1;
                        }
                        assert(bsites.take(bsites.len() as int) == bsites);
                        assert(bs.take(bi + 1).drop_last() == bs.take(bi as int));
                        assert(bs.take(bi + 1).last() == *b);
                        assert(blocks_sites(fname@, bs.take(bi + 1), plain) == blocks_sites(
                            fname@,
                            bs.take(bi as int),
                            plain,
                        ) + bsites);
                        bi += 1;
                    }
                    assert(bs.take(bs.len() as int) == bs);
                }
            },
        }
        fi += 1;
    }
    assert(fs.take(fs.len() as int) == fs);
    g
}

/// The graph in the plain style: strictly parsed SSA names, source names
/// from the `!DILocalVariable` lines, placeholder names for unnamed
/// functions and blocks.
pub(crate) fn build_graph_plain(
    functions: &Vec<IrFunction>,
    ir_text: &str,
    filter: Option<&str>,
) -> (g: DdgGraph)
    ensures
        graph_matches(
            g,
            functions_sites(functions@, opt_str(filter), true),
            graph_names(ir_text@, true),
            true,
        ),
{
    build_graph(functions, ir_text, filter, true)
}

/// The data-dependence graph of the module's functions (all but the LLVM
/// intrinsics, or only the one `function_filter` names): one node per
/// instruction, in module order, named from the debug metadata of `ir_text`,
/// with an edge from each value's last definition to each of its uses, from
/// the last store through a pointer to each load from it (`data_memory`) and
/// to the next store to it (`memory_overwrite`).
pub fn build_ddg(functions: &Vec<IrFunction>, ir_text: &str, function_filter: Option<&str>) -> (g:
    DdgGraph)
    ensures
        graph_matches(
            g,
            functions_sites(functions@, opt_str(function_filter), false),
            graph_names(ir_text@, false),
            false,
        ),
{
    build_graph(functions, ir_text, function_filter, false)
}

// ---------------------------------------------------------------------------
// DOT output
// ---------------------------------------------------------------------------

/// The label of a node in the DOT output: id, opcode, then the source name
/// (or else the SSA name) and a ` [dyn-idx]` mark, separated by `\n`.
pub open spec fn dot_label(n: NodeModel) -> Seq<char> {
    let display = match n.human_name {
        Some(h) => h,
        None => match n.defines {
            Some(d) => d,
            None => Seq::empty(),
        },
    };
    decimal(n.id as nat) + "\\n"@ + n.opcode + "\\n"@ + display + if n.has_dynamic_index {
        " [dyn-idx]"@
    } else {
        Seq::empty()
    }
}

/// A node's line in the DOT output.
pub open spec fn dot_node_line(n: NodeModel) -> Seq<char> {
    "  n"@ + decimal(n.id as nat) + " [label=\""@ + escape_with(
        dot_label(n),
        |c: char| dot_escape_char(c),
    ) + "\"];\n"@
}

/// The extra attributes of an edge of kind `kind`.
pub open spec fn dot_edge_style(kind: Seq<char>) -> Seq<char> {
    if kind == "data_memory"@ {
        " style=dashed"@
    } else if kind == "memory_overwrite"@ {
        " style=dotted color=red"@
    } else {
        Seq::empty()
    }
}

/// An edge's line in the DOT output.
pub open spec fn dot_edge_line(e: EdgeModel) -> Seq<char> {
    "  n"@ + decimal(e.from as nat) + " -> n"@ + decimal(e.to as nat) + " [label=\""@ + escape_with(
        e.kind,
        |c: char| dot_escape_char(c),
    ) + "\""@ + dot_edge_style(e.kind) + "];\n"@
}

/// The graph in Graphviz DOT form.
pub open spec fn graph_dot(g: DdgGraph) -> Seq<char> {
    "digraph DDG {\n  rankdir=LR;\n  node [shape=box fontsize=9];\n"@ + join_all(
        nodes_view(g.nodes@),
        |n: NodeModel| dot_node_line(n),
    ) + join_all(edges_view(g.edges@), |e: EdgeModel| dot_edge_line(e)) + "}\n"@
}

fn push_dot_node(out: &mut Vec<char>, n: &GraphNode)
    ensures
        final(out)@ == old(out)@ + dot_node_line(n@),
{
    let mut label: Vec<char> = Vec::new();
    push_decimal(&mut label, n.id as u64);
    push_str(&mut label, "\\n");
    push_str(&mut label, n.opcode.as_str());
    push_str(&mut label, "\\n");
    match &n.human_name {
        Some(h) => push_str(&mut label, h.as_str()),
        None => match &n.defines {
            Some(d) => push_str(&mut label, d.as_str()),
            None => {},
        },
    }
    if n.has_dynamic_index {
        push_str(&mut label, " [dyn-idx]");
    }
    assert(label@ =~= dot_label(n@));
    push_str(out, "  n");
    push_decimal(out, n.id as u64);
    push_str(out, " [label=\"");
    push_dot_escaped(out, label.as_slice(), true);
    push_str(out, "\"];\n");
    assert(out@ =~= old(out)@ + dot_node_line(n@));
}

fn push_dot_edge(out: &mut Vec<char>, e: &GraphEdge)
    ensures
        final(out)@ == old(out)@ + dot_edge_line(e@),
{
    let kind = chars_of(e.kind.as_str());
    push_str(out, "  n");
    push_decimal(out, e.from as u64);
    push_str(out, " -> n");
    push_decimal(out, e.to as u64);
    push_str(out, " [label=\"");
    push_dot_escaped(out, kind.as_slice(), true);
    push_str(out, "\"");
    if eq_str(kind.as_slice(), "data_memory") {
        push_str(out, " style=dashed");
    } else if eq_str(kind.as_slice(), "memory_overwrite") {
        push_str(out, " style=dotted color=red");
    }
    push_str(out, "];\n");
    assert(out@ =~= old(out)@ + dot_edge_line(e@));
}

/// The graph in Graphviz DOT form: a boxed node per instruction labelled
/// with its id, opcode and name, and an edge per dependence labelled with
/// its kind (memory edges dashed, overwrites dotted red).
pub fn graph_to_dot(g: &DdgGraph) -> (r: String)
    ensures
        r@ == graph_dot(*g),
{
    let mut out: Vec<char> = Vec::new();
    push_str(&mut out, "digraph DDG {\n  rankdir=LR;\n  node [shape=box fontsize=9];\n");
    let ghost head = out@;
    let ghost nv = nodes_view(g.nodes@);
    let ghost fnode = |n: NodeModel| dot_node_line(n);
    let mut i: usize = 0;
    while i < g.nodes.len()
        invariant
            i <= g.nodes@.len(),
            nv == nodes_view(g.nodes@),
            fnode == (|n: NodeModel| dot_node_line(n)),
            out@ == head + join_all(nv.take(i as int), fnode),
        decreases g.nodes@.len() - i,
    {
        proof { lemma_join_all_step(nv, i as int, fnode); }
        push_dot_node(&mut out, &g.nodes[i]);
        i += 1;
    }
    assert(nv.take(nv.len() as int) == nv);
    let ghost mid = out@;
    let ghost ev = edges_view(g.edges@);
    let ghost fedge = |e: EdgeModel| dot_edge_line(e);
    let mut j: usize = 0;
    while j < g.edges.len()
        invariant
            j <= g.edges@.len(),
            ev == edges_view(g.edges@),
            fedge == (|e: EdgeModel| dot_edge_line(e)),
            out@ == mid + join_all(ev.take(j as int), fedge),
        decreases g.edges@.len() - j,
    {
        proof { lemma_join_all_step(ev, j as int, fedge); }
        push_dot_edge(&mut out, &g.edges[j]);
        j += 1;
    }
    assert(ev.take(ev.len() as int) == ev);
    push_str(&mut out, "}\n");
    string_from(out.as_slice())
}

/// Escapes text for a DOT label: backslash and double quote get a
/// backslash, a newline becomes `\n`.
pub fn dot_esc(s: &str) -> (r: String)
    ensures
        r@ == escape_with(s@, |c: char| dot_escape_char(c)),
{
    let mut out: Vec<char> = Vec::new();
    push_dot_escaped(&mut out, chars_of(s).as_slice(), true);
    string_from(out.as_slice())
}

// ---------------------------------------------------------------------------
// Output files
// ---------------------------------------------------------------------------

/// Where the JSON and DOT forms of a graph are written.
#[derive(Debug, Clone)]
pub struct DdgOutputPaths {
    pub json_path: String,
    pub dot_path: String,
}

/// The path `Path::with_extension` gives for a path and an extension, both
/// as text.
pub uninterp spec fn path_with_extension(path: Seq<char>, ext: Seq<char>) -> Seq<char>;

/// Calls `Path::with_extension` on `path` and returns the result as text;
/// for a path given as valid UTF-8 the result is valid UTF-8 too, so no
/// character is replaced.  The extension holds no path separator, on which
/// std panics.
#[verifier::external_body]
fn with_extension(path: &str, ext: &str) -> (r: String)
    requires
        forall|i: int| 0 <= i < ext@.len() ==> #[trigger] ext@[i] != '/' && ext@[i] != '\\',
    ensures
        r@ == path_with_extension(path@, ext@),
{
    std::path::Path::new(path).with_extension(ext).to_string_lossy().into_owned()
}

/// The JSON and DOT paths for an output prefix: the prefix with extension
/// `json` and `dot`.
pub fn ddg_output_paths(out_prefix: &str) -> (r: DdgOutputPaths)
    ensures
        r.json_path@ == path_with_extension(out_prefix@, "json"@),
        r.dot_path@ == path_with_extension(out_prefix@, "dot"@),
{
    proof {
        reveal_strlit("json");
        reveal_strlit("dot");
    }
    DdgOutputPaths { json_path: with_extension(out_prefix, "json"), dot_path: with_extension(out_prefix, "dot") }
}

} // verus!
