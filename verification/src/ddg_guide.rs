//! Guidance the fuzzers derive from the data-dependence graph (DDG): how far
//! each node is from a dynamically indexed access, and the constants that the
//! program compares its inputs against.
use vstd::prelude::*;
use std::collections::HashMap;
use crate::text::{
    chars_of, contains_spec, contains_str, eq_str, is_digit, is_digit_exec, lower_all, lower_seq,
    parse_i32, parse_i32_spec, starts_with_spec, starts_with_str, trim, trim_spec,
};

verus! {

broadcast use vstd::std_specs::hash::group_hash_axioms;

/// A DDG node as the fuzzers read it.
#[derive(Debug, Clone)]
pub struct DdgNode {
    pub id: u64,
    pub defines: Option<String>,
    pub ir: String,
    pub has_dynamic_index: bool,
}

/// A DDG edge: data flows from `from` into `to`.
#[derive(Debug, Clone, Copy)]
pub struct DdgEdge {
    pub from: u64,
    pub to: u64,
}

/// The DDG as the fuzzers read it.
#[derive(Debug, Clone)]
pub struct Ddg {
    pub nodes: Vec<DdgNode>,
    pub edges: Vec<DdgEdge>,
}

/// `x` is the id of a sink: a node with a dynamically indexed access.
pub open spec fn is_sink(nodes: Seq<DdgNode>, x: u64) -> bool {
    exists|i: int| 0 <= i < nodes.len() && #[trigger] nodes[i].has_dynamic_index && nodes[i].id == x
}

/// Data can flow from node `x` to a sink along a path of exactly `k` edges.
pub open spec fn reaches(nodes: Seq<DdgNode>, edges: Seq<DdgEdge>, x: u64, k: nat) -> bool
    decreases k,
{
    if k == 0 {
        is_sink(nodes, x)
    } else {
        exists|j: int|
            0 <= j < edges.len() && #[trigger] edges[j].from == x && reaches(
                nodes,
                edges,
                edges[j].to,
                (k - 1) as nat,
            )
    }
}

/// `dist` maps exactly the nodes that reach a sink, each to the length of a
/// shortest path to one.
pub open spec fn shortest_distances(
    nodes: Seq<DdgNode>,
    edges: Seq<DdgEdge>,
    dist: Map<u64, u32>,
) -> bool {
    &&& forall|x: u64, k: nat| #[trigger] reaches(nodes, edges, x, k) ==> dist.contains_key(x)
        && dist[x] <= k
    &&& forall|x: u64| #[trigger] dist.contains_key(x) ==> reaches(nodes, edges, x, dist[x] as nat)
}

/// Ids that can ever be given a distance: sinks and edge sources.
spec fn candidate_ids(nodes: Seq<DdgNode>, edges: Seq<DdgEdge>) -> Set<u64> {
    (nodes.map_values(|n: DdgNode| n.id) + edges.map_values(|e: DdgEdge| e.from)).to_set()
}

proof fn lemma_candidates_bounded(nodes: Seq<DdgNode>, edges: Seq<DdgEdge>)
    ensures
        candidate_ids(nodes, edges).finite(),
        candidate_ids(nodes, edges).len() <= nodes.len() + edges.len(),
{
    let s = nodes.map_values(|n: DdgNode| n.id) + edges.map_values(|e: DdgEdge| e.from);
    s.lemma_cardinality_of_set();
    vstd::seq_lib::seq_to_set_is_finite(s);
}

proof fn lemma_sink_candidate(nodes: Seq<DdgNode>, edges: Seq<DdgEdge>, i: int)
    requires
        0 <= i < nodes.len(),
    ensures
        candidate_ids(nodes, edges).contains(nodes[i].id),
{
    let s = nodes.map_values(|n: DdgNode| n.id) + edges.map_values(|e: DdgEdge| e.from);
    assert(s[i] == nodes[i].id);
}

proof fn lemma_from_candidate(nodes: Seq<DdgNode>, edges: Seq<DdgEdge>, j: int)
    requires
        0 <= j < edges.len(),
    ensures
        candidate_ids(nodes, edges).contains(edges[j].from),
{
    let s = nodes.map_values(|n: DdgNode| n.id) + edges.map_values(|e: DdgEdge| e.from);
    assert(s[nodes.len() + j] == edges[j].from);
}

/// Every node of the closed set whose distance is known bounds the distance of
/// any node that reaches a sink in `k` steps.
proof fn lemma_closed_is_minimal(
    nodes: Seq<DdgNode>,
    edges: Seq<DdgEdge>,
    dist: Map<u64, u32>,
    x: u64,
    k: nat,
)
    requires
        forall|i: int|
            0 <= i < nodes.len() && #[trigger] nodes[i].has_dynamic_index ==> dist.contains_key(
                nodes[i].id,
            ) && dist[nodes[i].id] == 0,
        forall|y: u64, j: int|
            #![trigger dist.contains_key(y), edges[j]]
            dist.contains_key(y) && 0 <= j < edges.len() && edges[j].to == y ==> dist.contains_key(
                edges[j].from,
            ) && dist[edges[j].from] <= dist[y] + 1,
        reaches(nodes, edges, x, k),
    ensures
        dist.contains_key(x) && dist[x] <= k,
    decreases k,
{
    if k == 0 {
        let i = choose|i: int| 0 <= i < nodes.len() && #[trigger] nodes[i].has_dynamic_index && nodes[i].id == x;
    } else {
        let j = choose|j: int|
            0 <= j < edges.len() && #[trigger] edges[j].from == x && reaches(
                nodes,
                edges,
                edges[j].to,
                (k - 1) as nat,
            );
        lemma_closed_is_minimal(nodes, edges, dist, edges[j].to, (k - 1) as nat);
        assert(dist.contains_key(edges[j].to));
    }
}

/// Breadth-first search backwards from every sink: for each node that data
/// can flow from into a sink, the length of the shortest such flow.
pub fn build_ddg_distances(ddg: &Ddg) -> (dist: HashMap<u64, u32>)
    requires
        2 * ddg.nodes@.len() + ddg.edges@.len() < u32::MAX,
    ensures
        shortest_distances(ddg.nodes@, ddg.edges@, dist@),
{
    let ghost nodes = ddg.nodes@;
    let ghost edges = ddg.edges@;
    let ghost cand = candidate_ids(nodes, edges);
    proof { lemma_candidates_bounded(nodes, edges); }
    let mut dist: HashMap<u64, u32> = HashMap::new();
    let mut queue: Vec<u64> = Vec::new();
    let mut i: usize = 0;
    while i < ddg.nodes.len()
        invariant
            i <= nodes.len(),
            nodes == ddg.nodes@,
            cand == candidate_ids(nodes, edges),
            queue@.len() <= i,
            forall|j: int| 0 <= j < queue@.len() ==> dist@.contains_key(#[trigger] queue@[j]),
            forall|x: u64| #[trigger] dist@.contains_key(x) ==> dist@[x] == 0 && is_sink(nodes, x)
                && cand.contains(x) && exists|j: int| 0 <= j < queue@.len() && queue@[j] == x,
            forall|k: int|
                0 <= k < i && #[trigger] nodes[k].has_dynamic_index ==> dist@.contains_key(
                    nodes[k].id,
                ),
        decreases nodes.len() - i,
    {
        let n = &ddg.nodes[i];
        if n.has_dynamic_index {
            proof { lemma_sink_candidate(nodes, edges, i as int); }
            let ghost before = dist@;
            let ghost qb = queue@;
            dist.insert(n.id, 0);
            queue.push(n.id);
            assert(queue@[queue@.len() - 1] == n.id);
            proof {
                assert(nodes[i as int].has_dynamic_index && nodes[i as int].id == n.id);
                assert forall|x: u64| #[trigger] dist@.contains_key(x) implies dist@[x] == 0 && is_sink(nodes, x)
                    && cand.contains(x) && exists|j: int| 0 <= j < queue@.len() && queue@[j] == x by {
                    if x != n.id {
                        assert(before.contains_key(x));
                        let j = choose|j: int| 0 <= j < qb.len() && qb[j] == x;
                        assert(queue@[j] == x);
                    }
                }
            }
        }
        i += 1;
    }
    let mut head: usize = 0;
    proof {
        vstd::set_lib::lemma_len_subset(dist@.dom(), cand);
    }
    while head < queue.len()
        invariant
            nodes == ddg.nodes@,
            edges == ddg.edges@,
            cand == candidate_ids(nodes, edges),
            cand.finite(),
            cand.len() <= nodes.len() + edges.len(),
            2 * nodes.len() + edges.len() < u32::MAX,
            head <= queue@.len(),
            queue@.len() <= nodes.len() + dist@.len(),
            dist@.dom().subset_of(cand),
            // queue and map hold the same nodes
            forall|j: int| 0 <= j < queue@.len() ==> dist@.contains_key(#[trigger] queue@[j]),
            forall|x: u64| #[trigger] dist@.contains_key(x) ==> exists|j: int|
                0 <= j < queue@.len() && queue@[j] == x,
            // every known distance is witnessed by a path
            forall|x: u64| #[trigger] dist@.contains_key(x) ==> reaches(nodes, edges, x, dist@[x] as nat),
            // sinks are known at distance 0
            forall|k: int|
                0 <= k < nodes.len() && #[trigger] nodes[k].has_dynamic_index ==> dist@.contains_key(
                    nodes[k].id,
                ) && dist@[nodes[k].id] == 0,
            // the queue is ordered by distance, spans at most one level past the head,
            // and no distance exceeds its position
            forall|a: int, b: int|
                0 <= a <= b < queue@.len() ==> dist@[#[trigger] queue@[a]] <= dist@[#[trigger] queue@[b]],
            head < queue@.len() ==> forall|b: int|
                0 <= b < queue@.len() ==> dist@[#[trigger] queue@[b]] <= dist@[queue@[head as int]] + 1,
            forall|b: int| 0 <= b < queue@.len() ==> dist@[#[trigger] queue@[b]] <= b,
            // processed nodes have all their predecessors known, one level further at most
            forall|a: int, j: int|
                #![trigger queue@[a], edges[j]]
                0 <= a < head && 0 <= j < edges.len() && edges[j].to == queue@[a] ==> dist@.contains_key(
                    edges[j].from,
                ) && dist@[edges[j].from] <= dist@[queue@[a]] + 1,
        decreases nodes.len() + cand.len() - head,
    {
        let u = queue[head];
        let d: u32 = match dist.get(&u) {
            Some(v) => *v,
            None => 0,
        };
        assert(d == dist@[u]);
        assert(d <= head);
        proof { vstd::set_lib::lemma_len_subset(dist@.dom(), cand); }
        let ghost dist0 = dist@;
        let ghost q0 = queue@;
        let mut e: usize = 0;
        while e < ddg.edges.len()
            invariant
                nodes == ddg.nodes@,
                edges == ddg.edges@,
                cand == candidate_ids(nodes, edges),
                cand.finite(),
                cand.len() <= nodes.len() + edges.len(),
                2 * nodes.len() + edges.len() < u32::MAX,
                e <= edges.len(),
                head < q0.len(),
                q0[head as int] == u,
                dist0.contains_key(u),
                dist0[u] == d,
                d <= head,
                head < queue@.len(),
                queue@.len() <= nodes.len() + dist@.len(),
                dist@.dom().subset_of(cand),
                q0.len() <= queue@.len(),
                forall|j: int| 0 <= j < q0.len() ==> queue@[j] == q0[j],
                forall|x: u64| #[trigger] dist0.contains_key(x) ==> dist@.contains_key(x) && dist@[x]
                    == dist0[x],
                forall|j: int| 0 <= j < queue@.len() ==> dist@.contains_key(#[trigger] queue@[j]),
                forall|x: u64| #[trigger] dist@.contains_key(x) ==> exists|j: int|
                    0 <= j < queue@.len() && queue@[j] == x,
                forall|x: u64| #[trigger] dist@.contains_key(x) ==> reaches(nodes, edges, x, dist@[x] as nat),
                forall|k: int|
                    0 <= k < nodes.len() && #[trigger] nodes[k].has_dynamic_index ==> dist@.contains_key(
                        nodes[k].id,
                    ) && dist@[nodes[k].id] == 0,
                forall|a: int, b: int|
                    0 <= a <= b < queue@.len() ==> dist@[#[trigger] queue@[a]] <= dist@[#[trigger] queue@[b]],
                forall|b: int| 0 <= b < queue@.len() ==> dist@[#[trigger] queue@[b]] <= d + 1,
                forall|b: int| 0 <= b < queue@.len() ==> dist@[#[trigger] queue@[b]] <= b,
                forall|a: int, j: int|
                    #![trigger queue@[a], edges[j]]
                    0 <= a < head && 0 <= j < edges.len() && edges[j].to == queue@[a] ==> dist@.contains_key(
                        edges[j].from,
                    ) && dist@[edges[j].from] <= dist@[queue@[a]] + 1,
                forall|j: int|
                    #![trigger edges[j]]
                    0 <= j < e && edges[j].to == u ==> dist@.contains_key(edges[j].from)
                        && dist@[edges[j].from] <= d + 1,
            decreases edges.len() - e,
        {
            let edge = ddg.edges[e];
            if edge.to == u && !dist.contains_key(&edge.from) {
                proof {
                    lemma_from_candidate(nodes, edges, e as int);
                    vstd::set_lib::lemma_len_subset(dist@.dom(), cand);
                    assert(reaches(nodes, edges, u, d as nat));
                    assert(edges[e as int].from == edge.from);
                    assert(reaches(nodes, edges, edge.from, (d + 1) as nat));
                }
                let ghost before = dist@;
                let ghost qb = queue@;
                dist.insert(edge.from, d + 1);
                queue.push(edge.from);
                proof {
                    assert(dist@.dom() == before.dom().insert(edge.from));
                    assert(dist@.len() == before.len() + 1);
                    assert(queue@[queue@.len() - 1] == edge.from);
                    assert forall|x: u64| #[trigger] dist@.contains_key(x) implies exists|j: int|
                        0 <= j < queue@.len() && queue@[j] == x by {
                        if x != edge.from {
                            let j = choose|j: int| 0 <= j < qb.len() && qb[j] == x;
                            assert(queue@[j] == x);
                        }
                    }
                    assert forall|x: u64| #[trigger] dist@.contains_key(x) implies reaches(
                        nodes,
                        edges,
                        x,
                        dist@[x] as nat,
                    ) by {
                        if x != edge.from {
                            assert(before.contains_key(x));
                        }
                    }
                }
            }
            e += 1;
        }
        head += 1;
    }
    proof {
        assert forall|y: u64, j: int|
            #![trigger dist@.contains_key(y), edges[j]]
            dist@.contains_key(y) && 0 <= j < edges.len() && edges[j].to == y implies dist@.contains_key(
                edges[j].from,
            ) && dist@[edges[j].from] <= dist@[y] + 1 by {
            let a = choose|a: int| 0 <= a < queue@.len() && queue@[a] == y;
            assert(queue@[a] == y);
        }
        assert forall|x: u64, k: nat| #[trigger] reaches(nodes, edges, x, k) implies dist@.contains_key(x)
            && dist@[x] <= k by {
            lemma_closed_is_minimal(nodes, edges, dist@, x, k);
        }
    }
    dist
}


// ---------------------------------------------------------------------------
// Integer literals in IR text
// ---------------------------------------------------------------------------

/// A character that can belong to an integer literal.
pub open spec fn literal_char(c: char) -> bool {
    c == '-' || is_digit(c)
}

/// The value a finished run of literal characters contributes: one number if
/// it parses as an `i32`, nothing otherwise.
pub open spec fn flush_literal(buf: Seq<char>) -> Seq<i32> {
    match parse_i32_spec(buf) {
        Some(v) => seq![v as i32],
        None => Seq::empty(),
    }
}

/// The literals of `s` when `buf` holds the run read so far.
pub open spec fn literals_from(s: Seq<char>, buf: Seq<char>) -> Seq<i32>
    decreases s.len(),
{
    if s.len() == 0 {
        flush_literal(buf)
    } else if literal_char(s[0]) {
        literals_from(s.drop_first(), buf.push(s[0]))
    } else {
        flush_literal(buf) + literals_from(s.drop_first(), Seq::empty())
    }
}

/// The integer literals of `s`: each maximal run of `-` and digits that
/// parses as an `i32`, in order.
pub open spec fn literals_of(s: Seq<char>) -> Seq<i32> {
    literals_from(s, Seq::empty())
}

fn flush_into(out: &mut Vec<i32>, buf: &Vec<char>)
    ensures
        final(out)@ == old(out)@ + flush_literal(buf@),
{
    match parse_i32(buf.as_slice()) {
        Some(v) => {
            out.push(v);
            assert(old(out)@.push(v) == old(out)@ + seq![v]);
        },
        None => {
            assert(old(out)@ + Seq::<i32>::empty() == old(out)@);
        },
    }
}

/// The integer literals of `s`, in order: maximal runs of `-` and ASCII
/// digits that parse as `i32`.
pub fn parse_int_literals(s: &str) -> (out: Vec<i32>)
    ensures
        out@ == literals_of(s@),
{
    let cs = chars_of(s);
    let mut out: Vec<i32> = Vec::new();
    let mut buf: Vec<char> = Vec::new();
    let mut i: usize = 0;
    assert(cs@.skip(0) == cs@);
    while i < cs.len()
        invariant
            i <= cs@.len(),
            cs@ == s@,
            out@ + literals_from(cs@.skip(i as int), buf@) == literals_of(s@),
        decreases cs@.len() - i,
    {
        let c = cs[i];
        assert(cs@.skip(i as int).drop_first() == cs@.skip(i + 1));
        assert(cs@.skip(i as int)[0] == c);
        if c == '-' || is_digit_exec(c) {
            buf.push(c);
        } else {
            let ghost o = out@;
            let ghost ob = buf@;
            flush_into(&mut out, &buf);
            buf = Vec::new();
            assert(o + (flush_literal(ob) + literals_from(cs@.skip(i + 1), Seq::empty())) == out@ + literals_from(cs@.skip(i + 1), Seq::empty()));
        }
        i += 1;
    }
    assert(cs@.skip(i as int).len() == 0);
    flush_into(&mut out, &buf);
    out
}

// ---------------------------------------------------------------------------
// Comparison targets for 16-bit inputs
// ---------------------------------------------------------------------------

/// `v + 1`, saturating at `i16::MAX`.
pub open spec fn sat_inc(v: i16) -> i16 {
    if v == i16::MAX { v } else { (v + 1) as i16 }
}

/// `v - 1`, saturating at `i16::MIN`.
pub open spec fn sat_dec(v: i16) -> i16 {
    if v == i16::MIN { v } else { (v - 1) as i16 }
}

/// The targets a list of literals gives: each literal in `i16` range, and
/// its neighbours.
pub open spec fn literal_targets(lits: Seq<i32>) -> Set<i16>
    decreases lits.len(),
{
    if lits.len() == 0 {
        Set::empty()
    } else {
        let n = lits.last();
        let rest = literal_targets(lits.drop_last());
        if i16::MIN <= n <= i16::MAX {
            rest.insert(n as i16).insert(sat_inc(n as i16)).insert(sat_dec(n as i16))
        } else {
            rest
        }
    }
}

/// A node whose text holds a comparison or a switch.
pub open spec fn is_comparison(ir: Seq<char>) -> bool {
    contains_spec(lower_seq(ir), "icmp"@) || contains_spec(lower_seq(ir), "switch"@)
}

/// The targets the first `i` nodes give: the literals of those that reach a
/// sink and compare or switch.
pub open spec fn node_targets(nodes: Seq<DdgNode>, dist: Map<u64, u32>, i: int) -> Set<i16>
    decreases i,
{
    if i <= 0 {
        Set::empty()
    } else {
        let n = nodes[i - 1];
        let rest = node_targets(nodes, dist, i - 1);
        if dist.contains_key(n.id) && is_comparison(n.ir@) {
            rest + literal_targets(literals_of(n.ir@))
        } else {
            rest
        }
    }
}

/// The values used when the DDG yields none.
pub open spec fn default_targets() -> Seq<i16> {
    seq![0i16, 1, 2, 3, 4, 7, 15, 31, 50, 59, 60, 70, 71, 90, 100]
}

/// Strictly increasing.
pub open spec fn strictly_sorted(v: Seq<i16>) -> bool {
    forall|a: int, b: int| 0 <= a < b < v.len() ==> v[a] < v[b]
}

fn insert_sorted(v: &mut Vec<i16>, x: i16)
    requires
        strictly_sorted(old(v)@),
    ensures
        strictly_sorted(final(v)@),
        final(v)@.to_set() == old(v)@.to_set().insert(x),
{
    let mut i: usize = 0;
    while i < v.len() && v[i] < x
        invariant
            i <= v@.len(),
            forall|a: int| 0 <= a < i ==> v@[a] < x,
        decreases v@.len() - i,
    {
        i += 1;
    }
    if i < v.len() && v[i] == x {
        assert(v@.to_set().insert(x) =~= v@.to_set());
        return;
    }
    let ghost o = v@;
    v.insert(i, x);
    assert(v@.to_set() =~= o.to_set().insert(x)) by {
        assert forall|y: i16| v@.to_set().contains(y) <==> o.to_set().insert(x).contains(y) by {
            if v@.to_set().contains(y) {
                let k = choose|k: int| 0 <= k < v@.len() && v@[k] == y;
                if k < i { assert(o[k] == y); } else if k > i { assert(o[k - 1] == y); }
            }
            if o.to_set().contains(y) {
                let k = choose|k: int| 0 <= k < o.len() && o[k] == y;
                if k < i { assert(v@[k] == y); } else { assert(v@[k + 1] == y); }
            }
            if y == x { assert(v@[i as int] == x); }
        }
    }
}

fn insert_literal_targets(set: &mut Vec<i16>, lits: &Vec<i32>)
    requires
        strictly_sorted(old(set)@),
    ensures
        strictly_sorted(final(set)@),
        final(set)@.to_set() == old(set)@.to_set() + literal_targets(lits@),
{
    let mut j: usize = 0;
    assert(old(set)@.to_set() + literal_targets(lits@.take(0)) =~= old(set)@.to_set()) by {
        assert(lits@.take(0).len() == 0);
    }
    while j < lits.len()
        invariant
            j <= lits@.len(),
            strictly_sorted(set@),
            set@.to_set() == old(set)@.to_set() + literal_targets(lits@.take(j as int)),
        decreases lits@.len() - j,
    {
        let n = lits[j];
        assert(lits@.take(j + 1).drop_last() == lits@.take(j as int));
        assert(lits@.take(j + 1).last() == n);
        if -32768 <= n && n <= 32767 {
            let v = n as i16;
            insert_sorted(set, v);
            let up = if v == i16::MAX { v } else { v + 1 };
            insert_sorted(set, up);
            let down = if v == i16::MIN { v } else { v - 1 };
            insert_sorted(set, down);
            assert(set@.to_set() =~= old(set)@.to_set() + literal_targets(lits@.take(j + 1)));
        }
        j += 1;
    }
    assert(lits@.take(lits@.len() as int) == lits@);
}

/// Whether a node text holds a comparison or a switch.
fn comparison_text(ir: &String) -> (b: bool)
    ensures
        b == is_comparison(ir@),
{
    let cs = chars_of(ir.as_str());
    let low = lower_all(cs.as_slice());
    contains_str(low.as_slice(), "icmp") || contains_str(low.as_slice(), "switch")
}

/// Values worth writing into 16-bit inputs: every literal of a comparison or
/// switch on a node that reaches a sink, with its two neighbours; a fixed
/// list when there is none. Sorted, without repetition.
pub fn infer_i16_targets_from_ddg(ddg: &Ddg, dist: &HashMap<u64, u32>) -> (out: Vec<i16>)
    ensures
        strictly_sorted(out@),
        node_targets(ddg.nodes@, dist@, ddg.nodes@.len() as int).len() > 0 ==> out@.to_set()
            == node_targets(ddg.nodes@, dist@, ddg.nodes@.len() as int),
        node_targets(ddg.nodes@, dist@, ddg.nodes@.len() as int).len() == 0 ==> out@
            == default_targets(),
{
    let mut set: Vec<i16> = Vec::new();
    let mut i: usize = 0;
    while i < ddg.nodes.len()
        invariant
            i <= ddg.nodes@.len(),
            strictly_sorted(set@),
            set@.to_set() == node_targets(ddg.nodes@, dist@, i as int),
        decreases ddg.nodes@.len() - i,
    {
        let node = &ddg.nodes[i];
        if dist.contains_key(&node.id) && comparison_text(&node.ir) {
            let lits = parse_int_literals(node.ir.as_str());
            insert_literal_targets(&mut set, &lits);
        }
        i += 1;
    }
    proof {
        vstd::seq_lib::seq_to_set_is_finite(set@);
        if set@.len() > 0 {
            assert(set@.to_set().contains(set@[0]));
        }
    }
    if set.len() == 0 {
        assert(set@.to_set() =~= Set::<i16>::empty());
        let d: Vec<i16> = vec![0i16, 1, 2, 3, 4, 7, 15, 31, 50, 59, 60, 70, 71, 90, 100];
        assert(d@ == default_targets());
        return d;
    }
    set
}

/// A 1-byte `i8` input whose name suggests a command or switch.
pub open spec fn looks_boolish_spec(name: Seq<char>, llvm_type: Seq<char>, size: int) -> bool {
    let n = lower_seq(name);
    trim_spec(llvm_type) == "i8"@ && size == 1 && (starts_with_spec(n, "cmd"@) || contains_spec(
        n,
        "enable"@,
    ) || contains_spec(n, "start"@) || contains_spec(n, "reset"@) || contains_spec(n, "arm"@)
        || contains_spec(n, "trigger"@))
}

/// A 1-byte `i8` input whose lowercased name begins with `cmd` or contains
/// any of `enable`, `start`, `reset`, `arm`, `trigger` looks like a flag;
/// an input of another type or size never does.
pub proof fn lemma_flag_words_make_flags(name: Seq<char>, llvm_type: Seq<char>, size: int)
    ensures
        ({
            let n = lower_seq(name);
            trim_spec(llvm_type) == "i8"@ && size == 1 && (starts_with_spec(n, "cmd"@) || contains_spec(
                n,
                "enable"@,
            ) || contains_spec(n, "start"@) || contains_spec(n, "reset"@) || contains_spec(n, "arm"@)
                || contains_spec(n, "trigger"@)) ==> looks_boolish_spec(name, llvm_type, size)
        }),
        !(trim_spec(llvm_type) == "i8"@ && size == 1) ==> !looks_boolish_spec(name, llvm_type, size),
{
}

/// Whether an input looks like an on/off flag: a 1-byte `i8` named like a
/// command, enable, start, reset, arm or trigger.
pub fn looks_boolish(name: &str, llvm_type: &str, size: usize) -> (b: bool)
    ensures
        b == looks_boolish_spec(name@, llvm_type@, size as int),
{
    let t = trim(chars_of(llvm_type).as_slice());
    if !eq_str(t.as_slice(), "i8") || size != 1 {
        return false;
    }
    let n = lower_all(chars_of(name).as_slice());
    starts_with_str(n.as_slice(), "cmd") || contains_str(n.as_slice(), "enable") || contains_str(
        n.as_slice(),
        "start",
    ) || contains_str(n.as_slice(), "reset") || contains_str(n.as_slice(), "arm")
        || contains_str(n.as_slice(), "trigger")
}

// ---------------------------------------------------------------------------
// Distance of each defined name
// ---------------------------------------------------------------------------

/// The name a definition gives, without its leading `%` signs.
pub open spec fn def_name(def: Seq<char>) -> Seq<char> {
    crate::text::strip_prefix_chars(def, '%')
}

/// The smallest distance (in `dist`) of a node among `nodes` that defines
/// name `n`; `None` when no such node has a distance.
pub open spec fn best_dist(nodes: Seq<DdgNode>, dist: Map<u64, u32>, n: Seq<char>) -> Option<u32>
    decreases nodes.len(),
{
    if nodes.len() == 0 {
        None
    } else {
        let p = best_dist(nodes.drop_last(), dist, n);
        let x = nodes.last();
        match x.defines {
            Some(def) => if def_name(def@) == n && dist.contains_key(x.id) {
                let d = dist[x.id];
                match p {
                    Some(q) => Some(if d < q { d } else { q }),
                    None => Some(d),
                }
            } else {
                p
            },
            None => p,
        }
    }
}

/// For each name defined in the graph by a node with a distance, the
/// smallest such distance: every entry is a name with its `best_dist`, no
/// name twice, and every name that has one is there.
pub fn field_distances(ddg: &Ddg, dist: &HashMap<u64, u32>) -> (r: Vec<(String, u32)>)
    ensures
        forall|a: int, b: int| 0 <= a < b < r@.len() ==> (#[trigger] r@[a]).0@ != (#[trigger] r@[b]).0@,
        forall|k: int| 0 <= k < r@.len() ==> best_dist(ddg.nodes@, dist@, (#[trigger] r@[k]).0@) == Some(r@[k].1),
        forall|n: Seq<char>| #[trigger] best_dist(ddg.nodes@, dist@, n) is Some ==> exists|k: int|
            0 <= k < r@.len() && (#[trigger] r@[k]).0@ == n,
{
    let ghost nodes = ddg.nodes@;
    let ghost dv = dist@;
    let mut r: Vec<(String, u32)> = Vec::new();
    let mut i: usize = 0;
    while i < ddg.nodes.len()
        invariant
            i <= nodes.len(),
            nodes == ddg.nodes@,
            dv == dist@,
            forall|a: int, b: int| 0 <= a < b < r@.len() ==> (#[trigger] r@[a]).0@ != (#[trigger] r@[b]).0@,
            forall|k: int|
                0 <= k < r@.len() ==> best_dist(nodes.take(i as int), dv, (#[trigger] r@[k]).0@) == Some(
                    r@[k].1,
                ),
            forall|n: Seq<char>| #[trigger] best_dist(nodes.take(i as int), dv, n) is Some ==> exists|k: int|
                0 <= k < r@.len() && (#[trigger] r@[k]).0@ == n,
        decreases nodes.len() - i,
    {
        let ghost pre = nodes.take(i as int);
        let ghost post = nodes.take(i + 1);
        assert(post.drop_last() == pre);
        assert(post.last() == nodes[i as int]);
        let node = &ddg.nodes[i];
        match &node.defines {
            Some(def) => {
                let nm = crate::text::trim_start_char(crate::text::chars_of(def.as_str()).as_slice(), '%');
                match dist.get(&node.id) {
                    Some(dref) => {
                        let d = *dref;
                        assert(dv.contains_key(node.id) && dv[node.id] == d);
                        let mut k: usize = 0;
                        let mut found = false;
                        while k < r.len() && !found
                            invariant
                                k <= r@.len(),
                                found ==> k < r@.len() && r@[k as int].0@ == nm@,
                                forall|j: int| 0 <= j < k ==> (#[trigger] r@[j]).0@ != nm@,
                            decreases r@.len() - k + (if found { 0int } else { 1int }),
                        {
                            if crate::text::chars_eq(crate::text::chars_of(r[k].0.as_str()).as_slice(), nm.as_slice()) {
                                found = true;
                            } else {
                                k += 1;
                            }
                        }
                        proof {
                            assert forall|n: Seq<char>| n != nm@ implies #[trigger] best_dist(post, dv, n) == best_dist(pre, dv, n) by {}
                        }
                        if found {
                            let ghost before = r@;
                            assert(before[k as int].0@ == nm@);
                            let q = r[k].1;
                            let nv = if d < q { d } else { q };
                            let s = crate::text::string_from(nm.as_slice());
                            r.set(k, (s, nv));
                            assert forall|n: Seq<char>| #[trigger] best_dist(post, dv, n) is Some implies exists|k2: int|
                                0 <= k2 < r@.len() && (#[trigger] r@[k2]).0@ == n by {
                                if n != nm@ {
                                    let k2 = choose|k2: int| 0 <= k2 < before.len() && (#[trigger] before[k2]).0@ == n;
                                    assert(r@[k2].0@ == n);
                                } else {
                                    assert(r@[k as int].0@ == n);
                                }
                            }
                        } else {
                            proof {
                                if best_dist(pre, dv, nm@) is Some {
                                    let k2 = choose|k2: int| 0 <= k2 < r@.len() && (#[trigger] r@[k2]).0@ == nm@;
                                    assert(false);
                                }
                            }
                            let ghost before = r@;
                            r.push((crate::text::string_from(nm.as_slice()), d));
                            assert forall|n: Seq<char>| #[trigger] best_dist(post, dv, n) is Some implies exists|k2: int|
                                0 <= k2 < r@.len() && (#[trigger] r@[k2]).0@ == n by {
                                if n != nm@ {
                                    let k2 = choose|k2: int| 0 <= k2 < before.len() && (#[trigger] before[k2]).0@ == n;
                                    assert(r@[k2].0@ == n);
                                } else {
                                    assert(r@[before.len() as int].0@ == n);
                                }
                            }
                        }
                    },
                    None => {
                        assert forall|n: Seq<char>| #[trigger] best_dist(post, dv, n) == best_dist(pre, dv, n) by {}
                    },
                }
            },
            None => {
                assert forall|n: Seq<char>| #[trigger] best_dist(post, dv, n) == best_dist(pre, dv, n) by {}
            },
        }
        i += 1;
    }
    assert(nodes.take(nodes.len() as int) == nodes);
    r
}

} // verus!
