//! The DDG proximity probe's reader: DDG and layout JSON documents as
//! `prism-analyze` writes them, read by scanning for `{ ... }` blocks and
//! `"key": value` pairs rather than by a full JSON parser.
use vstd::prelude::*;
use crate::text::{
    chars_of, contains_spec, contains_str, find, find_spec, is_digit, is_digit_exec,
    lemma_find_from, parse_unsigned, parse_unsigned_spec, slice_of, starts_with_spec,
    starts_with_str, string_from,
};
use crate::ddg_graph::opt_chars;

verus! {

// ---------------------------------------------------------------------------
// Blocks
// ---------------------------------------------------------------------------

/// The scanner's state after a prefix of the text: brace depth outside
/// strings, where the current top-level block started, whether it is inside
/// a string and right after a backslash there, and the blocks found so far
/// as (first, last) character positions.
pub struct ScanState {
    pub depth: int,
    pub start: Option<int>,
    pub in_string: bool,
    pub escaped: bool,
    pub blocks: Seq<(int, int)>,
}

/// The scanner's step over character `c` at position `i`.
pub open spec fn scan_step(st: ScanState, c: char, i: int) -> ScanState {
    if st.escaped {
        ScanState { escaped: false, ..st }
    } else if c == '\\' && st.in_string {
        ScanState { escaped: true, ..st }
    } else if c == '"' {
        ScanState { in_string: !st.in_string, ..st }
    } else if st.in_string {
        st
    } else if c == '{' {
        ScanState { start: if st.depth == 0 { Some(i) } else { st.start }, depth: st.depth + 1, ..st }
    } else if c == '}' {
        if st.depth - 1 == 0 && st.start is Some {
            ScanState {
                depth: st.depth - 1,
                start: None,
                blocks: st.blocks.push((st.start.unwrap(), i)),
                ..st
            }
        } else {
            ScanState { depth: st.depth - 1, ..st }
        }
    } else {
        st
    }
}

/// The scanner's state after the first `n` characters of `s`.
pub open spec fn scan(s: Seq<char>, n: int) -> ScanState
    decreases n,
{
    if n <= 0 {
        ScanState { depth: 0, start: None, in_string: false, escaped: false, blocks: Seq::empty() }
    } else {
        scan_step(scan(s, n - 1), s[n - 1], n - 1)
    }
}

/// The top-level `{ ... }` blocks of `s` (braces inside strings ignored),
/// in order.
pub open spec fn object_blocks_of(s: Seq<char>) -> Seq<Seq<char>> {
    scan(s, s.len() as int).blocks.map_values(|b: (int, int)| s.subrange(b.0, b.1 + 1))
}

/// Every top-level `{ ... }` block of `s`, ignoring braces inside string
/// literals.
pub fn top_level_objects(s: &[char]) -> (r: Vec<Vec<char>>)
    ensures
        r@.map_values(|b: Vec<char>| b@) == object_blocks_of(s@),
{
    let n = s.len();
    let mut depth: i128 = 0;
    let mut start: Option<usize> = None;
    let mut in_string = false;
    let mut escaped = false;
    let mut out: Vec<Vec<char>> = Vec::new();
    let mut i: usize = 0;
    while i < n
        invariant
            i <= n,
            n == s@.len(),
            -(i as int) <= depth <= i,
            scan(s@, i as int).depth == depth as int,
            scan(s@, i as int).in_string == in_string,
            scan(s@, i as int).escaped == escaped,
            scan(s@, i as int).start == match start {
                Some(k) => Some(k as int),
                None => None::<int>,
            },
            start matches Some(k) ==> k < i,
            forall|j: int|
                0 <= j < scan(s@, i as int).blocks.len() ==> 0 <= #[trigger] scan(
                    s@,
                    i as int,
                ).blocks[j].0 <= scan(s@, i as int).blocks[j].1 < i,
            out@.map_values(|b: Vec<char>| b@) == scan(s@, i as int).blocks.map_values(
                |b: (int, int)| s@.subrange(b.0, b.1 + 1),
            ),
        decreases n - i,
    {
        let ghost st0 = scan(s@, i as int);
        let ghost start0 = start;
        let c = s[i];
        if escaped {
            escaped = false;
        } else if c == '\\' && in_string {
            escaped = true;
        } else if c == '"' {
            in_string = !in_string;
        } else if in_string {
        } else if c == '{' {
            if depth == 0 {
                start = Some(i);
            }
            depth = depth + 1;
        } else if c == '}' {
            depth = depth - 1;
            if depth == 0 {
                match start {
                    Some(st) => {
                        let b = slice_of(s, st, i + 1);
                        let ghost before = out@;
                        out.push(b);
                        assert(out@.map_values(|b: Vec<char>| b@) =~= before.map_values(
                            |b: Vec<char>| b@,
                        ).push(b@));
                        start = None;
                    },
                    None => {},
                }
            }
        }
        i += 1;
        proof {
            let st1 = scan(s@, i as int);
            assert(st1 == scan_step(st0, c, i - 1));
            assert forall|j: int| 0 <= j < st1.blocks.len() implies 0 <= #[trigger] st1.blocks[j].0
                <= st1.blocks[j].1 < i by {
                if j < st0.blocks.len() {
                    assert(st1.blocks[j] == st0.blocks[j]);
                    assert(0 <= st0.blocks[j].0 <= st0.blocks[j].1 < i - 1);
                } else {
                    assert(start0 is Some);
                    assert(st0.start == Some(start0.unwrap() as int));
                    assert(st1.blocks[j] == (st0.start.unwrap(), i - 1));
                }
            }
            assert(st1.blocks.map_values(|b: (int, int)| s@.subrange(b.0, b.1 + 1)) =~= out@.map_values(
                |b: Vec<char>| b@,
            ));
        }
    }
    out
}

/// Every `{ ... }` block at the outermost level of `s` (the same scan as
/// `top_level_objects`, used on a section of a document).
pub fn object_blocks(s: &[char]) -> (r: Vec<Vec<char>>)
    ensures
        r@.map_values(|b: Vec<char>| b@) == object_blocks_of(s@),
{
    top_level_objects(s)
}

// ---------------------------------------------------------------------------
// Values after keys
// ---------------------------------------------------------------------------

/// A character skipped between a key and its value: space, tab, newline,
/// carriage return or colon.
pub open spec fn key_gap_char(c: char) -> bool {
    c == ' ' || c == '\t' || c == '\n' || c == '\r' || c == ':'
}

/// `s` without its leading gap characters.
pub open spec fn skip_gap(s: Seq<char>) -> Seq<char>
    decreases s.len(),
{
    if s.len() > 0 && key_gap_char(s[0]) {
        skip_gap(s.drop_first())
    } else {
        s
    }
}

/// The ASCII digits at the front of `s`.
pub open spec fn digit_prefix(s: Seq<char>) -> Seq<char>
    decreases s.len(),
{
    if s.len() > 0 && is_digit(s[0]) {
        seq![s[0]] + digit_prefix(s.drop_first())
    } else {
        Seq::empty()
    }
}

/// The text after the first occurrence of `key` and the gap that follows it.
pub open spec fn value_after(s: Seq<char>, key: Seq<char>) -> Option<Seq<char>> {
    match find_spec(s, key) {
        Some(p) => Some(skip_gap(s.skip(p + key.len()))),
        None => None,
    }
}

/// The unsigned number after `key`: its leading digits, when there is at
/// least one and the value fits in 64 bits.
pub open spec fn u64_after(s: Seq<char>, key: Seq<char>) -> Option<nat> {
    match value_after(s, key) {
        Some(a) => parse_unsigned_spec(digit_prefix(a), u64::MAX as nat),
        None => None,
    }
}

/// The string after `key`: the text between the opening quote and the next
/// quote; `None` for `null`, for anything else, or without a closing quote.
pub open spec fn string_after(s: Seq<char>, key: Seq<char>) -> Option<Seq<char>> {
    match value_after(s, key) {
        Some(a) => if starts_with_spec(a, "null"@) {
            None
        } else if a.len() > 0 && a[0] == '"' {
            match find_spec(a.drop_first(), seq!['"']) {
                Some(e) => Some(a.drop_first().take(e)),
                None => None,
            }
        } else {
            None
        },
        None => None,
    }
}

fn value_after_exec(s: &[char], key: &str) -> (r: Option<Vec<char>>)
    ensures
        match r {
            Some(v) => value_after(s@, key@) == Some(v@),
            None => value_after(s@, key@) is None,
        },
{
    let kc = chars_of(key);
    let p = match find(s, kc.as_slice()) {
        Some(p) => p,
        None => return None,
    };
    proof { lemma_find_from(s@, key@, 0); }
    let n = s.len();
    let kl = kc.len();
    assert(p + kl <= n);
    let mut i = p + kl;
    assert(s@.skip(i as int) == s@.skip(p + key@.len()));
    while i < n && (s[i] == ' ' || s[i] == '\t' || s[i] == '\n' || s[i] == '\r' || s[i] == ':')
        invariant
            p + kl <= i <= n,
            n == s@.len(),
            kl == key@.len(),
            skip_gap(s@.skip(p + kl)) == skip_gap(s@.skip(i as int)),
        decreases n - i,
    {
        assert(s@.skip(i as int).drop_first() == s@.skip(i + 1));
        i += 1;
    }
    proof {
        if i < n {
            assert(s@.skip(i as int)[0] == s@[i as int]);
        }
    }
    Some(slice_of(s, i, n))
}

/// The unsigned number after `key` (see `u64_after`).
pub fn extract_u64(s: &[char], key: &str) -> (r: Option<u64>)
    ensures
        match r {
            Some(v) => u64_after(s@, key@) == Some(v as nat),
            None => u64_after(s@, key@) is None,
        },
{
    let a = match value_after_exec(s, key) {
        Some(a) => a,
        None => return None,
    };
    let mut e: usize = 0;
    assert(a@.skip(0) == a@);
    while e < a.len() && is_digit_exec(a[e])
        invariant
            e <= a@.len(),
            digit_prefix(a@) == a@.take(e as int) + digit_prefix(a@.skip(e as int)),
        decreases a@.len() - e,
    {
        assert(a@.skip(e as int).drop_first() == a@.skip(e + 1));
        assert(a@.take(e + 1) == a@.take(e as int).push(a@[e as int]));
        e += 1;
    }
    proof {
        if e < a@.len() {
            assert(a@.skip(e as int)[0] == a@[e as int]);
        }
    }
    assert(digit_prefix(a@.skip(e as int)) == Seq::<char>::empty());
    let d = slice_of(a.as_slice(), 0, e);
    assert(d@ =~= digit_prefix(a@));
    parse_unsigned(d.as_slice(), u64::MAX)
}

/// The string after `key` (see `string_after`).
pub fn extract_string_opt(s: &[char], key: &str) -> (r: Option<String>)
    ensures
        opt_chars(r) == string_after(s@, key@),
{
    let a = match value_after_exec(s, key) {
        Some(a) => a,
        None => return None,
    };
    if starts_with_str(a.as_slice(), "null") {
        return None;
    }
    if a.len() > 0 && a[0] == '"' {
        let inner = slice_of(a.as_slice(), 1, a.len());
        assert(inner@ == a@.drop_first());
        let q: Vec<char> = vec!['"'];
        assert(q@ == seq!['"']);
        match find(inner.as_slice(), q.as_slice()) {
            Some(e) => {
                proof { lemma_find_from(inner@, seq!['"'], 0); }
                let v = slice_of(inner.as_slice(), 0, e);
                Some(string_from(v.as_slice()))
            },
            None => None,
        }
    } else {
        None
    }
}

// ---------------------------------------------------------------------------
// The documents
// ---------------------------------------------------------------------------

/// A DDG node as the probe reads it.
#[derive(Debug, Clone)]
pub struct DdgNode {
    pub id: u64,
    pub defines: Option<String>,
    pub has_dynamic_index: bool,
}

/// A DDG edge as the probe reads it.
#[derive(Debug, Clone)]
pub struct DdgEdge {
    pub from: u64,
    pub to: u64,
    pub kind: String,
}

/// A field of a layout as the probe reads it.
#[derive(Debug, Clone)]
pub struct LayoutField {
    pub name: Option<String>,
    pub llvm_type: String,
    pub byte_offset: u64,
    pub byte_size: u64,
}

/// A program layout as the probe reads it.
#[derive(Debug, Clone)]
pub struct ProgramLayout {
    pub struct_name: String,
    pub total_bytes: u64,
    pub fields: Vec<LayoutField>,
}

/// A node as mathematical values.
pub struct NodeM {
    pub id: u64,
    pub defines: Option<Seq<char>>,
    pub has_dynamic_index: bool,
}

/// An edge as mathematical values.
pub struct EdgeM {
    pub from: u64,
    pub to: u64,
    pub kind: Seq<char>,
}

/// A layout field as mathematical values.
pub struct FieldM {
    pub name: Option<Seq<char>>,
    pub llvm_type: Seq<char>,
    pub byte_offset: u64,
    pub byte_size: u64,
}

/// A layout as mathematical values.
pub struct LayoutM {
    pub struct_name: Seq<char>,
    pub total_bytes: u64,
    pub fields: Seq<FieldM>,
}

impl View for DdgNode {
    type V = NodeM;

    open spec fn view(&self) -> NodeM {
        NodeM { id: self.id, defines: opt_chars(self.defines), has_dynamic_index: self.has_dynamic_index }
    }
}

impl View for DdgEdge {
    type V = EdgeM;

    open spec fn view(&self) -> EdgeM {
        EdgeM { from: self.from, to: self.to, kind: self.kind@ }
    }
}

impl View for LayoutField {
    type V = FieldM;

    open spec fn view(&self) -> FieldM {
        FieldM {
            name: opt_chars(self.name),
            llvm_type: self.llvm_type@,
            byte_offset: self.byte_offset,
            byte_size: self.byte_size,
        }
    }
}

impl View for ProgramLayout {
    type V = LayoutM;

    open spec fn view(&self) -> LayoutM {
        LayoutM {
            struct_name: self.struct_name@,
            total_bytes: self.total_bytes,
            fields: self.fields@.map_values(|f: LayoutField| f@),
        }
    }
}

/// The number after `key`, or 0.
pub open spec fn u64_or_zero(s: Seq<char>, key: Seq<char>) -> u64 {
    match u64_after(s, key) {
        Some(v) => v as u64,
        None => 0,
    }
}

/// The string after `key`, or the empty text.
pub open spec fn string_or_empty(s: Seq<char>, key: Seq<char>) -> Seq<char> {
    match string_after(s, key) {
        Some(v) => v,
        None => Seq::empty(),
    }
}

/// The node a block describes, when it has an `"id"`.
pub open spec fn node_of_block(b: Seq<char>) -> Option<NodeM> {
    match u64_after(b, "\"id\""@) {
        Some(id) => Some(
            NodeM {
                id: id as u64,
                defines: string_after(b, "\"defines\""@),
                has_dynamic_index: contains_spec(b, "\"has_dynamic_index\": true"@),
            },
        ),
        None => None,
    }
}

/// The edge a block describes, when it has a `"from"` and a `"to"`.
pub open spec fn edge_of_block(b: Seq<char>) -> Option<EdgeM> {
    match (u64_after(b, "\"from\""@), u64_after(b, "\"to\""@)) {
        (Some(f), Some(t)) => Some(
            EdgeM { from: f as u64, to: t as u64, kind: string_or_empty(b, "\"kind\""@) },
        ),
        _ => None,
    }
}

/// Where the nodes section of a DDG document starts (the `"nodes"` key, or
/// the start).
pub open spec fn nodes_start(json: Seq<char>) -> int {
    match find_spec(json, "\"nodes\""@) {
        Some(k) => k,
        None => 0,
    }
}

/// Where the edges section of a DDG document starts (the `"edges"` key, or
/// the end).
pub open spec fn edges_start(json: Seq<char>) -> int {
    match find_spec(json, "\"edges\""@) {
        Some(k) => k,
        None => json.len() as int,
    }
}

/// The nodes of a DDG document: the blocks between `"nodes"` and `"edges"`
/// that have an id.
pub open spec fn ddg_nodes_of(json: Seq<char>) -> Seq<NodeM> {
    crate::text::collect_some(
        object_blocks_of(json.subrange(nodes_start(json), edges_start(json))),
        |b: Seq<char>| node_of_block(b),
    )
}

/// The edges of a DDG document: the blocks after `"edges"` that have both
/// ends.
pub open spec fn ddg_edges_of(json: Seq<char>) -> Seq<EdgeM> {
    crate::text::collect_some(
        object_blocks_of(json.skip(edges_start(json))),
        |b: Seq<char>| edge_of_block(b),
    )
}

fn find_or(s: &[char], pat: &str, default: usize) -> (r: usize)
    requires
        default <= s@.len(),
    ensures
        r == match find_spec(s@, pat@) {
            Some(k) => k,
            None => default as int,
        },
        r <= s@.len(),
{
    let pc = chars_of(pat);
    match find(s, pc.as_slice()) {
        Some(k) => {
            proof { lemma_find_from(s@, pat@, 0); }
            k
        },
        None => default,
    }
}

/// Reads a DDG document: the nodes (id, defined SSA name, dynamic-index
/// flag) from the blocks between `"nodes"` and `"edges"`, and the edges
/// (from, to, kind) from the blocks after `"edges"`.
pub fn parse_ddg_impl(json: &str) -> (r: (Vec<DdgNode>, Vec<DdgEdge>))
    requires
        nodes_start(json@) <= edges_start(json@),
    ensures
        r.0@.map_values(|n: DdgNode| n@) == ddg_nodes_of(json@),
        r.1@.map_values(|e: DdgEdge| e@) == ddg_edges_of(json@),
{
    let j = chars_of(json);
    let ns = find_or(j.as_slice(), "\"nodes\"", 0);
    let es = find_or(j.as_slice(), "\"edges\"", j.len());
    let node_blocks = object_blocks(slice_of(j.as_slice(), ns, es).as_slice());
    let edge_blocks = object_blocks(slice_of(j.as_slice(), es, j.len()).as_slice());
    let ghost nb = node_blocks@.map_values(|b: Vec<char>| b@);
    let ghost fnode = |b: Seq<char>| node_of_block(b);
    let mut nodes: Vec<DdgNode> = Vec::new();
    let mut i: usize = 0;
    while i < node_blocks.len()
        invariant
            i <= node_blocks@.len(),
            nb == node_blocks@.map_values(|b: Vec<char>| b@),
            fnode == (|b: Seq<char>| node_of_block(b)),
            nodes@.map_values(|n: DdgNode| n@) == crate::text::collect_some(nb.take(i as int), fnode),
        decreases node_blocks@.len() - i,
    {
        proof { crate::text::lemma_collect_some_step(nb, i as int, fnode); }
        let b = node_blocks[i].as_slice();
        assert(b@ == nb[i as int]);
        match extract_u64(b, "\"id\"") {
            Some(id) => {
                let n = DdgNode {
                    id,
                    defines: extract_string_opt(b, "\"defines\""),
                    has_dynamic_index: contains_str(b, "\"has_dynamic_index\": true"),
                };
                let ghost before = nodes@;
                nodes.push(n);
                assert(nodes@.map_values(|n: DdgNode| n@) =~= before.map_values(|n: DdgNode| n@).push(
                    n@,
                ));
            },
            None => {},
        }
        i += 1;
    }
    assert(nb.take(nb.len() as int) == nb);
    let ghost eb = edge_blocks@.map_values(|b: Vec<char>| b@);
    let ghost fedge = |b: Seq<char>| edge_of_block(b);
    let mut edges: Vec<DdgEdge> = Vec::new();
    let mut k: usize = 0;
    while k < edge_blocks.len()
        invariant
            k <= edge_blocks@.len(),
            eb == edge_blocks@.map_values(|b: Vec<char>| b@),
            fedge == (|b: Seq<char>| edge_of_block(b)),
            edges@.map_values(|e: DdgEdge| e@) == crate::text::collect_some(eb.take(k as int), fedge),
        decreases edge_blocks@.len() - k,
    {
        proof { crate::text::lemma_collect_some_step(eb, k as int, fedge); }
        let b = edge_blocks[k].as_slice();
        assert(b@ == eb[k as int]);
        match (extract_u64(b, "\"from\""), extract_u64(b, "\"to\"")) {
            (Some(from), Some(to)) => {
                let kind = match extract_string_opt(b, "\"kind\"") {
                    Some(v) => v,
                    None => String::new(),
                };
                let e = DdgEdge { from, to, kind };
                let ghost before = edges@;
                edges.push(e);
                assert(edges@.map_values(|e: DdgEdge| e@) =~= before.map_values(|e: DdgEdge| e@).push(
                    e@,
                ));
            },
            _ => {},
        }
        k += 1;
    }
    assert(eb.take(eb.len() as int) == eb);
    (nodes, edges)
}

/// Reads a DDG document (see `parse_ddg_impl`).
pub fn parse_ddg(json: &str) -> (r: (Vec<DdgNode>, Vec<DdgEdge>))
    requires
        nodes_start(json@) <= edges_start(json@),
    ensures
        r.0@.map_values(|n: DdgNode| n@) == ddg_nodes_of(json@),
        r.1@.map_values(|e: DdgEdge| e@) == ddg_edges_of(json@),
{
    parse_ddg_impl(json)
}

/// The layout field a block describes; absent values read as empty or 0.
pub open spec fn field_of_block(b: Seq<char>) -> FieldM {
    FieldM {
        name: string_after(b, "\"name\""@),
        llvm_type: string_or_empty(b, "\"llvm_type\""@),
        byte_offset: u64_or_zero(b, "\"byte_offset\""@),
        byte_size: u64_or_zero(b, "\"byte_size\""@),
    }
}

/// The layout a top-level block describes: its name, total size and the
/// field blocks after its `"fields"` key.
pub open spec fn layout_of_block(b: Seq<char>) -> LayoutM {
    let fs = match find_spec(b, "\"fields\""@) {
        Some(k) => k,
        None => b.len() as int,
    };
    LayoutM {
        struct_name: string_or_empty(b, "\"struct_name\""@),
        total_bytes: u64_or_zero(b, "\"total_bytes\""@),
        fields: object_blocks_of(b.skip(fs)).map_values(|f: Seq<char>| field_of_block(f)),
    }
}

/// The layouts of a layout document, one per top-level block.
pub open spec fn layouts_of(json: Seq<char>) -> Seq<LayoutM> {
    object_blocks_of(json).map_values(|b: Seq<char>| layout_of_block(b))
}

fn string_or_empty_exec(s: &[char], key: &str) -> (r: String)
    ensures
        r@ == string_or_empty(s@, key@),
{
    match extract_string_opt(s, key) {
        Some(v) => v,
        None => String::new(),
    }
}

fn u64_or_zero_exec(s: &[char], key: &str) -> (r: u64)
    ensures
        r == u64_or_zero(s@, key@),
{
    match extract_u64(s, key) {
        Some(v) => v,
        None => 0,
    }
}

fn layout_of_block_exec(b: &[char]) -> (r: ProgramLayout)
    ensures
        r@ == layout_of_block(b@),
{
    let fs = find_or(b, "\"fields\"", b.len());
    let blocks = object_blocks(slice_of(b, fs, b.len()).as_slice());
    let ghost bv = blocks@.map_values(|x: Vec<char>| x@);
    let mut fields: Vec<LayoutField> = Vec::new();
    let mut i: usize = 0;
    while i < blocks.len()
        invariant
            i <= blocks@.len(),
            bv == blocks@.map_values(|x: Vec<char>| x@),
            fields@.len() == i,
            forall|j: int| 0 <= j < i ==> #[trigger] fields@[j]@ == field_of_block(bv[j]),
        decreases blocks@.len() - i,
    {
        let fb = blocks[i].as_slice();
        assert(fb@ == bv[i as int]);
        let f = LayoutField {
            name: extract_string_opt(fb, "\"name\""),
            llvm_type: string_or_empty_exec(fb, "\"llvm_type\""),
            byte_offset: u64_or_zero_exec(fb, "\"byte_offset\""),
            byte_size: u64_or_zero_exec(fb, "\"byte_size\""),
        };
        fields.push(f);
        i += 1;
    }
    let r = ProgramLayout {
        struct_name: string_or_empty_exec(b, "\"struct_name\""),
        total_bytes: u64_or_zero_exec(b, "\"total_bytes\""),
        fields,
    };
    assert(r@.fields =~= bv.map_values(|f: Seq<char>| field_of_block(f)));
    r
}

/// Reads a layout document: one layout per top-level block, with its name,
/// total size and fields (name, type, offset, size), absent values read as
/// empty or 0.
pub fn parse_layout(json: &str) -> (r: Vec<ProgramLayout>)
    ensures
        r@.map_values(|l: ProgramLayout| l@) == layouts_of(json@),
{
    let blocks = top_level_objects(chars_of(json).as_slice());
    let ghost bv = blocks@.map_values(|x: Vec<char>| x@);
    let mut out: Vec<ProgramLayout> = Vec::new();
    let mut i: usize = 0;
    while i < blocks.len()
        invariant
            i <= blocks@.len(),
            bv == blocks@.map_values(|x: Vec<char>| x@),
            out@.len() == i,
            forall|j: int| 0 <= j < i ==> #[trigger] out@[j]@ == layout_of_block(bv[j]),
        decreases blocks@.len() - i,
    {
        assert(blocks[i as int]@ == bv[i as int]);
        out.push(layout_of_block_exec(blocks[i].as_slice()));
        i += 1;
    }
    assert(out@.map_values(|l: ProgramLayout| l@) =~= layouts_of(json@));
    out
}

// ---------------------------------------------------------------------------
// Distance of each layout byte
// ---------------------------------------------------------------------------

/// The distance recorded for name `n`: its first entry in `nd`.
pub open spec fn name_dist_lookup(nd: Seq<(String, u32)>, n: Seq<char>) -> Option<u32>
    decreases nd.len(),
{
    if nd.len() == 0 {
        None
    } else if nd[0].0@ == n {
        Some(nd[0].1)
    } else {
        name_dist_lookup(nd.drop_first(), n)
    }
}

/// A field's name, empty when it has none.
pub open spec fn layout_field_name(f: LayoutField) -> Seq<char> {
    match f.name {
        Some(n) => n@,
        None => Seq::empty(),
    }
}

/// A field the fuzzer may write: not the vtable and not an embedded struct.
pub open spec fn layout_field_fuzzable(f: LayoutField) -> bool {
    layout_field_name(f) != "__vtable"@ && !crate::text::starts_with_char(f.llvm_type@, '%')
}

/// The distance of byte `b` of a layout: that of the name of the last
/// fuzzable field among `fs` covering it, `None` when none covers it or its
/// name has no distance.
pub open spec fn byte_dist(fs: Seq<LayoutField>, nd: Seq<(String, u32)>, b: int) -> Option<u32>
    decreases fs.len(),
{
    if fs.len() == 0 {
        None
    } else {
        let f = fs.last();
        if layout_field_fuzzable(f) && f.byte_offset <= b < f.byte_offset + f.byte_size {
            name_dist_lookup(nd, layout_field_name(f))
        } else {
            byte_dist(fs.drop_last(), nd, b)
        }
    }
}

fn name_dist_get(nd: &Vec<(String, u32)>, n: &[char]) -> (r: Option<u32>)
    ensures
        r == name_dist_lookup(nd@, n@),
{
    let mut k: usize = 0;
    assert(nd@.skip(0) == nd@);
    while k < nd.len()
        invariant
            k <= nd@.len(),
            name_dist_lookup(nd@, n@) == name_dist_lookup(nd@.skip(k as int), n@),
        decreases nd@.len() - k,
    {
        assert(nd@.skip(k as int)[0] == nd@[k as int]);
        assert(nd@.skip(k as int).drop_first() == nd@.skip(k + 1));
        if crate::text::chars_eq(chars_of(nd[k].0.as_str()).as_slice(), n) {
            return Some(nd[k].1);
        }
        k += 1;
    }
    None
}

/// The distance of each byte of a layout of `total_bytes` bytes, from the
/// smallest distance of each name (see `field_distances`): the byte's last
/// fuzzable covering field's name's distance (`byte_dist`).
pub fn byte_distances(fields: &[LayoutField], name_dist: &Vec<(String, u32)>, total_bytes: u64) -> (r: Vec<
    Option<u32>,
>)
    requires
        total_bytes <= usize::MAX,
    ensures
        r@.len() == total_bytes,
        forall|b: int| 0 <= b < total_bytes ==> #[trigger] r@[b] == byte_dist(fields@, name_dist@, b),
{
    let n = total_bytes as usize;
    let ghost fs = fields@;
    let ghost nd = name_dist@;
    let mut r: Vec<Option<u32>> = Vec::new();
    let mut z: usize = 0;
    while z < n
        invariant
            z <= n,
            r@.len() == z,
            forall|b: int| 0 <= b < z ==> #[trigger] r@[b] == None::<u32>,
        decreases n - z,
    {
        r.push(None);
        z += 1;
    }
    let mut i: usize = 0;
    while i < fields.len()
        invariant
            i <= fs.len(),
            fs == fields@,
            nd == name_dist@,
            n == total_bytes,
            r@.len() == n,
            forall|b: int| 0 <= b < n ==> #[trigger] r@[b] == byte_dist(fs.take(i as int), nd, b),
        decreases fs.len() - i,
    {
        let ghost pre = fs.take(i as int);
        let ghost post = fs.take(i + 1);
        assert(post.drop_last() == pre);
        assert(post.last() == fs[i as int]);
        let f = &fields[i];
        let name: Vec<char> = match &f.name {
            Some(s) => chars_of(s.as_str()),
            None => Vec::new(),
        };
        let fuzzable = !crate::text::eq_str(name.as_slice(), "__vtable")
            && !crate::text::starts_with_char_exec(chars_of(f.llvm_type.as_str()).as_slice(), '%');
        assert(fuzzable == layout_field_fuzzable(*f));
        if fuzzable {
            let v = name_dist_get(name_dist, name.as_slice());
            let start: u64 = f.byte_offset;
            if start < total_bytes {
                let end: u64 = if f.byte_size > total_bytes - start { total_bytes } else { start + f.byte_size };
                let ghost r0 = r@;
                let mut p: usize = start as usize;
                while p < end as usize
                    invariant
                        start <= p <= end,
                        end <= n,
                        r@.len() == n,
                        forall|b: int|
                            0 <= b < n ==> #[trigger] r@[b] == if start <= b < p { v } else { r0[b] },
                    decreases end - p,
                {
                    r.set(p, v);
                    p += 1;
                }
            }
            assert forall|b: int| 0 <= b < n implies #[trigger] r@[b] == byte_dist(post, nd, b) by {}
        } else {
            assert forall|b: int| 0 <= b < n implies #[trigger] r@[b] == byte_dist(post, nd, b) by {}
        }
        i += 1;
    }
    assert(fs.take(fs.len() as int) == fs);
    r
}

} // verus!
