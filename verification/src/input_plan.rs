//! How fuzz input bytes reach the program's fields: the packed input of the
//! coverage fuzzer, the compact input plans that keep only the fields the
//! analysis selected, and per-byte data repeated over a scan sequence.
use vstd::prelude::*;
use crate::text::{chars_of, decimal, eq_str, push_decimal, push_str, starts_with_char, string_from};
use crate::layout::{FieldLayout, FieldModel, ProgramLayout};
use crate::config::{
    effective_cycles, effective_cycles_spec, required_input_len, required_input_len_spec,
    PrismFuzzConfig,
};

verus! {

// ---------------------------------------------------------------------------
// Packed input of the coverage fuzzer
// ---------------------------------------------------------------------------

/// A field the fuzzer writes: neither the vtable nor an embedded struct.
pub open spec fn fuzzable(f: FieldModel) -> bool {
    let name = match f.name {
        Some(n) => n,
        None => Seq::empty(),
    };
    name != "__vtable"@ && !starts_with_char(f.llvm_type, '%')
}

/// Whether the fuzzer writes this field.
pub fn is_fuzzable(field: &FieldLayout) -> (b: bool)
    ensures
        b == fuzzable(field@),
{
    let name = match &field.name {
        Some(n) => chars_of(n.as_str()),
        None => Vec::new(),
    };
    !eq_str(name.as_slice(), "__vtable") && !crate::text::starts_with_char_exec(
        chars_of(field.llvm_type.as_str()).as_slice(),
        '%',
    )
}

/// The bytes of the fuzzable fields.
pub open spec fn fuzzable_bytes(fs: Seq<FieldModel>) -> nat
    decreases fs.len(),
{
    if fs.len() == 0 {
        0
    } else {
        fuzzable_bytes(fs.drop_last()) + if fuzzable(fs.last()) {
            fs.last().byte_size as usize as nat
        } else {
            0
        }
    }
}

/// The size of the packed input: the bytes of all fuzzable fields.
pub fn input_size(layout: &ProgramLayout) -> (n: usize)
    requires
        fuzzable_bytes(layout@.fields) <= usize::MAX,
    ensures
        n == fuzzable_bytes(layout@.fields),
{
    let ghost fs = layout@.fields;
    let mut total: usize = 0;
    let mut i: usize = 0;
    while i < layout.fields.len()
        invariant
            i <= fs.len(),
            fs == layout@.fields,
            fuzzable_bytes(fs) <= usize::MAX,
            total == fuzzable_bytes(fs.take(i as int)),
        decreases fs.len() - i,
    {
        assert(fs.take(i + 1).drop_last() == fs.take(i as int));
        proof { lemma_fuzzable_bytes_prefix(fs, i + 1); }
        if is_fuzzable(&layout.fields[i]) {
            total = total + (#[verifier::truncate] (layout.fields[i].byte_size as usize));
        }
        i += 1;
    }
    assert(fs.take(fs.len() as int) == fs);
    total
}

proof fn lemma_fuzzable_bytes_prefix(fs: Seq<FieldModel>, i: int)
    requires
        0 <= i <= fs.len(),
    ensures
        fuzzable_bytes(fs.take(i)) <= fuzzable_bytes(fs),
    decreases fs.len() - i,
{
    if i < fs.len() {
        lemma_fuzzable_bytes_prefix(fs, i + 1);
        assert(fs.take(i + 1).drop_last() == fs.take(i));
    } else {
        assert(fs.take(i) == fs);
    }
}

/// The instance bytes while mapping input: the bytes so far, the input
/// position, and whether a field that did not fit ended the mapping.
pub struct MapState {
    pub inst: Seq<u8>,
    pub src: int,
    pub stopped: bool,
}

/// Mapping one field: a fuzzable field takes the next `byte_size` input
/// bytes at its offset, unless they run past the input or the field past
/// the instance, which ends the mapping.
pub open spec fn map_step(st: MapState, f: FieldModel, bytes: Seq<u8>) -> MapState {
    if st.stopped || !fuzzable(f) {
        st
    } else {
        let size = f.byte_size as usize as int;
        let off = f.byte_offset as usize as int;
        if st.src + size > bytes.len() || off + size > st.inst.len() {
            MapState { stopped: true, ..st }
        } else {
            MapState {
                inst: Seq::new(
                    st.inst.len(),
                    |i: int| if off <= i < off + size { bytes[st.src + i - off] } else { st.inst[i] },
                ),
                src: st.src + size,
                stopped: false,
            }
        }
    }
}

/// Mapping the fields in order onto a zeroed instance of `inst_len` bytes.
pub open spec fn map_fields(fs: Seq<FieldModel>, bytes: Seq<u8>, inst_len: nat) -> MapState
    decreases fs.len(),
{
    if fs.len() == 0 {
        MapState { inst: Seq::new(inst_len, |i: int| 0u8), src: 0, stopped: false }
    } else {
        map_step(map_fields(fs.drop_last(), bytes, inst_len), fs.last(), bytes)
    }
}

/// Writes the packed input into a program instance: the instance is zeroed,
/// then the fuzzable fields take consecutive input bytes in field order,
/// until one does not fit.
pub fn map_input(bytes: &[u8], instance: &mut Vec<u8>, layout: &ProgramLayout)
    ensures
        final(instance)@ == map_fields(layout@.fields, bytes@, old(instance)@.len()).inst,
{
    let ghost fs = layout@.fields;
    let n = instance.len();
    let mut z: usize = 0;
    while z < n
        invariant
            z <= n,
            n == instance@.len(),
            instance@ == Seq::new(n as nat, |i: int| if i < z { 0u8 } else { old(instance)@[i] }),
        decreases n - z,
    {
        instance.set(z, 0);
        z += 1;
        assert(instance@ =~= Seq::new(n as nat, |i: int| if i < z { 0u8 } else { old(instance)@[i] }));
    }
    assert(instance@ =~= Seq::new(n as nat, |i: int| 0u8));
    let mut src: usize = 0;
    let mut i: usize = 0;
    let blen = bytes.len();
    assert(fs.take(0) == Seq::<FieldModel>::empty());
    while i < layout.fields.len()
        invariant
            i <= fs.len(),
            fs == layout@.fields,
            n == old(instance)@.len(),
            blen == bytes@.len(),
            instance@.len() == n,
            src <= blen,
            map_fields(fs.take(i as int), bytes@, n as nat) == (MapState {
                inst: instance@,
                src: src as int,
                stopped: false,
            }),
        decreases fs.len() - i,
    {
        assert(fs.take(i + 1).drop_last() == fs.take(i as int));
        let f = &layout.fields[i];
        if is_fuzzable(f) {
            let size = #[verifier::truncate] (f.byte_size as usize);
            let off = #[verifier::truncate] (f.byte_offset as usize);
            if size > blen - src || off > n || size > n - off {
                proof { lemma_map_stays_stopped(fs, bytes@, n as nat, i + 1); }
                return;
            }
            let ghost before = instance@;
            let mut j: usize = 0;
            while j < size
                invariant
                    j <= size,
                    src + size <= blen,
                    off + size <= n,
                    blen == bytes@.len(),
                    instance@.len() == n,
                    instance@ == Seq::new(n as nat, |k: int| if off <= k < off + j { bytes@[src + k - off] } else { before[k] }),
                decreases size - j,
            {
                instance.set(off + j, bytes[src + j]);
                j += 1;
                assert(instance@ =~= Seq::new(n as nat, |k: int| if off <= k < off + j { bytes@[src + k - off] } else { before[k] }));
            }
            src = src + size;
        }
        i += 1;
    }
    assert(fs.take(fs.len() as int) == fs);
}

proof fn lemma_map_stays_stopped(fs: Seq<FieldModel>, bytes: Seq<u8>, inst_len: nat, i: int)
    requires
        0 <= i <= fs.len(),
        map_fields(fs.take(i), bytes, inst_len).stopped,
    ensures
        map_fields(fs, bytes, inst_len).inst == map_fields(fs.take(i), bytes, inst_len).inst,
        map_fields(fs, bytes, inst_len).stopped,
    decreases fs.len() - i,
{
    if i < fs.len() {
        assert(fs.take(i + 1).drop_last() == fs.take(i));
        lemma_map_stays_stopped(fs, bytes, inst_len, i + 1);
    } else {
        assert(fs.take(i) == fs);
    }
}

// ---------------------------------------------------------------------------
// Per-byte data over a scan sequence
// ---------------------------------------------------------------------------

/// `base` repeated (and cut) to `required_len` items; `fill` repeated
/// (at least once) when `base` is empty.
pub open spec fn expanded(base: Seq<u8>, required_len: nat) -> Seq<u8> {
    Seq::new(required_len, |i: int| base[i % (base.len() as int)])
}

/// Per-byte data for a testcase of `required_len` bytes: `base` (one frame's
/// worth) repeated and cut to length; `fill` repeated, at least once, when
/// `base` is empty.
pub fn expand_for_sequence<T: Copy>(base: &[T], required_len: usize, fill: T) -> (r: Vec<T>)
    ensures
        base@.len() == 0 ==> r@ == Seq::new(if required_len < 1 { 1 } else { required_len as nat }, |i: int| fill),
        base@.len() > 0 ==> r@ == Seq::new(required_len as nat, |i: int| base@[i % (base@.len() as int)]),
{
    let n = base.len();
    if n == 0 {
        let len = if required_len < 1 { 1 } else { required_len };
        let mut out: Vec<T> = Vec::new();
        let mut i: usize = 0;
        while i < len
            invariant
                i <= len,
                out@ == Seq::new(i as nat, |k: int| fill),
            decreases len - i,
        {
            out.push(fill);
            i += 1;
            assert(out@ =~= Seq::new(i as nat, |k: int| fill));
        }
        return out;
    }
    let mut out: Vec<T> = Vec::new();
    let mut i: usize = 0;
    while i < required_len
        invariant
            i <= required_len,
            n == base@.len(),
            n > 0,
            out@ == Seq::new(i as nat, |k: int| base@[k % (n as int)]),
        decreases required_len - i,
    {
        out.push(base[i % n]);
        i += 1;
        assert(out@ =~= Seq::new(i as nat, |k: int| base@[k % (n as int)]));
    }
    out
}

// ---------------------------------------------------------------------------
// Compact input plans
// ---------------------------------------------------------------------------

/// A comparison the analysis found an input take part in.
#[derive(Debug, Clone)]
pub struct InputComparison {
    pub pred: String,
    pub threshold: i64,
}

/// An input field as the DDG analysis describes it.
#[derive(Debug, Clone)]
pub struct InputFieldGuide {
    pub name: String,
    pub llvm_type: String,
    pub byte_size: u64,
    pub byte_offset: u64,
    pub model: String,
    pub roles: Vec<String>,
    pub comparisons: Vec<InputComparison>,
    pub target_values: Vec<i64>,
    pub critical: bool,
}

/// The texts of a list of strings.
pub open spec fn texts(v: Seq<String>) -> Seq<Seq<char>> {
    v.map_values(|s: String| s@)
}

/// A field the analysis marks as critical or gives a role other than
/// `neutral`.
pub open spec fn selected_field(critical: bool, roles: Seq<Seq<char>>) -> bool {
    critical || exists|i: int| 0 <= i < roles.len() && #[trigger] roles[i] != "neutral"@
}

/// Whether the compact input keeps this field.
pub fn is_selected_field(field: &InputFieldGuide) -> (b: bool)
    ensures
        b == selected_field(field.critical, texts(field.roles@)),
{
    if field.critical {
        return true;
    }
    let ghost rv = texts(field.roles@);
    let mut i: usize = 0;
    while i < field.roles.len()
        invariant
            i <= field.roles@.len(),
            rv == texts(field.roles@),
            forall|k: int| 0 <= k < i ==> #[trigger] rv[k] == "neutral"@,
        decreases field.roles@.len() - i,
    {
        if !eq_str(chars_of(field.roles[i].as_str()).as_slice(), "neutral") {
            assert(rv[i as int] != "neutral"@);
            return true;
        }
        i += 1;
    }
    false
}

/// A field's place in the full and the compact frame.
#[derive(Debug, Clone)]
pub struct PlannedField {
    pub name: String,
    pub llvm_type: String,
    pub model: String,
    pub roles: Vec<String>,
    pub byte_size: usize,
    pub full_offset: usize,
    /// Offset in the compact frame; `None` for a field left out.
    pub compact_offset: Option<usize>,
    pub selected: bool,
    pub critical: bool,
}

/// The compact input plan: which fields the fuzzer supplies, packed.
#[derive(Debug, Clone)]
pub struct InputPlan {
    pub main_function: String,
    pub full_frame_size: usize,
    pub compact_frame_size: usize,
    pub fields: Vec<PlannedField>,
}

/// Whether any field is selected.
pub open spec fn any_selected(gs: Seq<InputFieldGuide>) -> bool {
    exists|i: int| 0 <= i < gs.len() && selected_field(#[trigger] gs[i].critical, texts(gs[i].roles@))
}

/// Whether field `g` is kept: when some field is selected, the selected
/// ones; otherwise all of them.
pub open spec fn kept(g: InputFieldGuide, any: bool) -> bool {
    if any {
        selected_field(g.critical, texts(g.roles@))
    } else {
        true
    }
}

/// The compact frame size after the first `k` fields: the sizes of the kept
/// ones added up.
pub open spec fn compact_prefix(gs: Seq<InputFieldGuide>, k: int, any: bool) -> int
    decreases k,
{
    if k <= 0 {
        0
    } else {
        compact_prefix(gs, k - 1, any) + if kept(gs[k - 1], any) {
            gs[k - 1].byte_size as usize as int
        } else {
            0
        }
    }
}

/// The plan's view of field `k`: kept or not, and its compact offset.
pub open spec fn planned(gs: Seq<InputFieldGuide>, k: int, any: bool) -> (bool, Option<int>) {
    if kept(gs[k], any) {
        (true, Some(compact_prefix(gs, k, any)))
    } else {
        (false, None)
    }
}

/// Builds the compact input plan from the analysis: the kept fields (the
/// selected ones, or all when none is selected) are packed in order into
/// the compact frame.
pub fn build_input_plan(main_function: &str, frame_size: usize, input_fields: &Vec<InputFieldGuide>) -> (r:
    InputPlan)
    requires
        compact_prefix(input_fields@, input_fields@.len() as int, any_selected(input_fields@))
            <= usize::MAX,
    ensures
        r.main_function@ == main_function@,
        r.full_frame_size == frame_size,
        r.compact_frame_size == compact_prefix(
            input_fields@,
            input_fields@.len() as int,
            any_selected(input_fields@),
        ),
        r.fields@.len() == input_fields@.len(),
        selected_bytes(r.fields@, r.fields@.len() as int) == r.compact_frame_size,
        forall|k: int|
            0 <= k < r.fields@.len() && (#[trigger] r.fields@[k]).selected ==> r.fields@[k].compact_offset
                == Some(selected_bytes(r.fields@, k) as usize),
        forall|k: int|
            0 <= k < input_fields@.len() ==> {
                let p = #[trigger] r.fields@[k];
                let g = input_fields@[k];
                let (sel, off) = planned(input_fields@, k, any_selected(input_fields@));
                &&& p.name@ == g.name@
                &&& p.llvm_type@ == g.llvm_type@
                &&& p.model@ == g.model@
                &&& texts(p.roles@) == texts(g.roles@)
                &&& p.critical == g.critical
                &&& p.byte_size == #[verifier::truncate] (g.byte_size as usize)
                &&& p.full_offset == #[verifier::truncate] (g.byte_offset as usize)
                &&& p.selected == sel
                &&& match p.compact_offset {
                    Some(o) => off == Some(o as int),
                    None => off is None,
                }
            },
{
    let ghost gs = input_fields@;
    let mut any = false;
    let mut i: usize = 0;
    while i < input_fields.len()
        invariant
            i <= gs.len(),
            gs == input_fields@,
            any == exists|k: int| 0 <= k < i && selected_field(#[trigger] gs[k].critical, texts(gs[k].roles@)),
        decreases gs.len() - i,
    {
        if is_selected_field(&input_fields[i]) {
            assert(selected_field(gs[i as int].critical, texts(gs[i as int].roles@)));
            any = true;
        }
        i += 1;
    }
    assert(any == any_selected(gs));
    proof { lemma_compact_prefix_mono(gs, any, gs.len() as int); }
    let mut fields: Vec<PlannedField> = Vec::new();
    let mut compact: usize = 0;
    let mut k: usize = 0;
    while k < input_fields.len()
        invariant
            k <= gs.len(),
            gs == input_fields@,
            any == any_selected(gs),
            compact_prefix(gs, gs.len() as int, any) <= usize::MAX,
            forall|j: int| 0 <= j <= gs.len() ==> #[trigger] compact_prefix(gs, j, any) <= compact_prefix(gs, gs.len() as int, any),
            compact == compact_prefix(gs, k as int, any),
            fields@.len() == k,
            selected_bytes(fields@, k as int) == compact,
            forall|j: int|
                0 <= j < k && (#[trigger] fields@[j]).selected ==> fields@[j].compact_offset == Some(
                    selected_bytes(fields@, j) as usize,
                ),
            forall|j: int|
                0 <= j < k ==> {
                    let p = #[trigger] fields@[j];
                    let g = gs[j];
                    let (sel, off) = planned(gs, j, any);
                    &&& p.name@ == g.name@
                    &&& p.llvm_type@ == g.llvm_type@
                    &&& p.model@ == g.model@
                    &&& texts(p.roles@) == texts(g.roles@)
                    &&& p.critical == g.critical
                    &&& p.byte_size == #[verifier::truncate] (g.byte_size as usize)
                    &&& p.full_offset == #[verifier::truncate] (g.byte_offset as usize)
                    &&& p.selected == sel
                    &&& match p.compact_offset {
                        Some(o) => off == Some(o as int),
                        None => off is None,
                    }
                },
        decreases gs.len() - k,
    {
        let g = &input_fields[k];
        let sel = if any { is_selected_field(g) } else { true };
        let size = #[verifier::truncate] (g.byte_size as usize);
        let co = if sel {
            assert(compact_prefix(gs, k + 1, any) == compact + size);
            let o = compact;
            compact = compact + size;
            Some(o)
        } else {
            None
        };
        let roles = crate::metadata::clone_strings(&g.roles);
        assert(texts(roles@) =~= texts(g.roles@)) by {
            assert(crate::metadata::strings_view(roles@) == crate::metadata::strings_view(g.roles@));
        }
        let ghost before = fields@;
        fields.push(PlannedField {
            name: string_from(chars_of(g.name.as_str()).as_slice()),
            llvm_type: string_from(chars_of(g.llvm_type.as_str()).as_slice()),
            model: string_from(chars_of(g.model.as_str()).as_slice()),
            roles,
            byte_size: size,
            full_offset: #[verifier::truncate] (g.byte_offset as usize),
            compact_offset: co,
            selected: sel,
            critical: g.critical,
        });
        proof {
            lemma_selected_bytes_push(before, fields@[k as int], k as int);
            assert(fields@ == before.push(fields@[k as int]));
            assert(fields@.drop_last() == before);
            assert forall|j: int|
                0 <= j < k + 1 && (#[trigger] fields@[j]).selected implies fields@[j].compact_offset == Some(
                    selected_bytes(fields@, j) as usize,
                ) by {
                lemma_selected_bytes_push(before, fields@[k as int], j);
                if j < k {
                    assert(fields@[j] == before[j]);
                }
            }
        }
        k += 1;
    }
    InputPlan {
        main_function: string_from(chars_of(main_function).as_slice()),
        full_frame_size: frame_size,
        compact_frame_size: compact,
        fields,
    }
}

proof fn lemma_selected_bytes_push(s: Seq<PlannedField>, x: PlannedField, k: int)
    requires
        0 <= k <= s.len(),
    ensures
        selected_bytes(s.push(x), k) == selected_bytes(s, k),
    decreases k,
{
    if k > 0 {
        lemma_selected_bytes_push(s, x, k - 1);
        assert(s.push(x)[k - 1] == s[k - 1]);
    }
}

proof fn lemma_compact_prefix_mono(gs: Seq<InputFieldGuide>, any: bool, k: int)
    requires
        0 <= k <= gs.len(),
    ensures
        forall|j: int| 0 <= j <= k ==> #[trigger] compact_prefix(gs, j, any) <= compact_prefix(gs, k, any),
    decreases k,
{
    if k > 0 {
        lemma_compact_prefix_mono(gs, any, k - 1);
    }
}

/// The bytes of the selected fields among the first `k`.
pub open spec fn selected_bytes(fs: Seq<PlannedField>, k: int) -> int
    decreases k,
{
    if k <= 0 {
        0
    } else {
        selected_bytes(fs, k - 1) + if fs[k - 1].selected {
            fs[k - 1].byte_size as int
        } else {
            0
        }
    }
}

/// One cycle of expansion: the selected fields, in order, take consecutive
/// bytes of the compact cycle starting at `cstart` into their places in the
/// full cycle starting at `fstart`.  Gives the bytes and the compact bytes
/// used.
pub open spec fn expand_cycle(
    out: Seq<u8>,
    data: Seq<u8>,
    fs: Seq<PlannedField>,
    k: int,
    cstart: int,
    fstart: int,
) -> (Seq<u8>, int)
    decreases k,
{
    if k <= 0 {
        (out, 0)
    } else {
        let (o, cur) = expand_cycle(out, data, fs, k - 1, cstart, fstart);
        let f = fs[k - 1];
        if !f.selected {
            (o, cur)
        } else {
            let d = fstart + f.full_offset;
            (
                Seq::new(
                    o.len(),
                    |i: int| if d <= i < d + f.byte_size { data[cstart + cur + (i - d)] } else { o[i] },
                ),
                cur + f.byte_size,
            )
        }
    }
}

/// The first `n` cycles expanded onto a zeroed testcase, and whether each
/// used exactly the compact frame.
pub open spec fn expand_cycles(
    config: PrismFuzzConfig,
    data: Seq<u8>,
    plan: InputPlan,
    full_len: int,
    n: int,
) -> (Seq<u8>, bool)
    decreases n,
{
    if n <= 0 {
        (Seq::new(required_input_len_spec(config, full_len) as nat, |i: int| 0u8), true)
    } else {
        let (o, ok) = expand_cycles(config, data, plan, full_len, n - 1);
        if !ok {
            (o, false)
        } else {
            let (o2, cur) = expand_cycle(
                o,
                data,
                plan.fields@,
                plan.fields@.len() as int,
                (n - 1) * plan.compact_frame_size,
                (n - 1) * full_len,
            );
            (o2, cur == plan.compact_frame_size)
        }
    }
}

/// The full testcase for compact input `data`: `None` when the data is too
/// short for the compact frames or the plan's selected fields do not fill
/// the compact frame exactly; else every cycle expanded.
pub open spec fn expanded_input(
    config: PrismFuzzConfig,
    data: Seq<u8>,
    plan: InputPlan,
    full_len: int,
) -> Option<Seq<u8>> {
    if data.len() < required_input_len_spec(config, plan.compact_frame_size as int) {
        None
    } else {
        let (o, ok) = expand_cycles(config, data, plan, full_len, effective_cycles_spec(config));
        if ok {
            Some(o)
        } else {
            None
        }
    }
}

/// The plan fits the frames: selected fields lie within the full frame and
/// fit, together, in the compact frame.
pub open spec fn plan_fits(plan: InputPlan, full_len: int) -> bool {
    &&& forall|k: int|
        0 <= k < plan.fields@.len() && (#[trigger] plan.fields@[k]).selected ==> plan.fields@[k].full_offset
            + plan.fields@[k].byte_size <= full_len
    &&& selected_bytes(plan.fields@, plan.fields@.len() as int) <= plan.compact_frame_size
}

proof fn lemma_selected_bytes_mono(fs: Seq<PlannedField>, k: int, m: int)
    requires
        0 <= k <= m <= fs.len(),
    ensures
        selected_bytes(fs, k) <= selected_bytes(fs, m),
    decreases m - k,
{
    if k < m {
        lemma_selected_bytes_mono(fs, k, m - 1);
    }
}

proof fn lemma_expand_cycle_cursor(out: Seq<u8>, data: Seq<u8>, fs: Seq<PlannedField>, k: int, cs: int, fst: int)
    requires
        0 <= k <= fs.len(),
    ensures
        expand_cycle(out, data, fs, k, cs, fst).1 == selected_bytes(fs, k),
        expand_cycle(out, data, fs, k, cs, fst).0.len() == out.len(),
    decreases k,
{
    if k > 0 {
        lemma_expand_cycle_cursor(out, data, fs, k - 1, cs, fst);
    }
}

proof fn lemma_expand_stays_failed(config: PrismFuzzConfig, data: Seq<u8>, plan: InputPlan, full_len: int, n: int, m: int)
    requires
        0 <= n <= m,
        !expand_cycles(config, data, plan, full_len, n).1,
    ensures
        !expand_cycles(config, data, plan, full_len, m).1,
    decreases m - n,
{
    if n < m {
        lemma_expand_stays_failed(config, data, plan, full_len, n, m - 1);
    }
}

/// Position `p` of a frame lies in selected field `f`.
pub open spec fn in_field(f: PlannedField, p: int) -> bool {
    f.selected && f.full_offset <= p < f.full_offset + f.byte_size
}

/// No two selected fields share a byte of the full frame.
pub open spec fn fields_disjoint(fs: Seq<PlannedField>) -> bool {
    forall|a: int, b: int|
        0 <= a < fs.len() && 0 <= b < fs.len() && a != b && (#[trigger] fs[a]).selected
            && (#[trigger] fs[b]).selected ==> fs[a].full_offset + fs[a].byte_size <= fs[b].full_offset
            || fs[b].full_offset + fs[b].byte_size <= fs[a].full_offset
}

/// Byte `j` of field `f` in the frame of `s` that starts at `base`.
pub open spec fn placed(s: Seq<u8>, base: int, f: PlannedField, j: int) -> u8 {
    s[base + f.full_offset + j]
}

/// Byte `j` of field `f` in full frame `c` of a testcase of `full_len`-byte
/// frames.
pub open spec fn frame_byte(s: Seq<u8>, full_len: int, c: int, f: PlannedField, j: int) -> u8 {
    placed(s, c * full_len, f, j)
}

/// Byte `j` after `at` in compact frame `c` of `compact_len`-byte frames.
pub open spec fn compact_byte(data: Seq<u8>, compact_len: int, c: int, at: int, j: int) -> u8 {
    data[c * compact_len + at + j]
}

proof fn lemma_expand_cycle_places(out: Seq<u8>, data: Seq<u8>, fs: Seq<PlannedField>, k: int, cs: int, fst: int)
    requires
        0 <= k <= fs.len(),
        0 <= fst,
        fields_disjoint(fs),
        forall|m: int|
            0 <= m < k && (#[trigger] fs[m]).selected ==> fst + fs[m].full_offset + fs[m].byte_size <= out.len(),
    ensures
        forall|m: int, j: int|
            0 <= m < k && fs[m].selected && 0 <= j < fs[m].byte_size ==> #[trigger] placed(
                expand_cycle(out, data, fs, k, cs, fst).0,
                fst,
                fs[m],
                j,
            ) == data[cs + selected_bytes(fs, m) + j],
        forall|i: int|
            0 <= i < out.len() && (forall|m: int| 0 <= m < k ==> !in_field(#[trigger] fs[m], i - fst))
                ==> #[trigger] expand_cycle(out, data, fs, k, cs, fst).0[i] == out[i],
    decreases k,
{
    if k > 0 {
        lemma_expand_cycle_places(out, data, fs, k - 1, cs, fst);
        lemma_expand_cycle_cursor(out, data, fs, k - 1, cs, fst);
        let (o, cur) = expand_cycle(out, data, fs, k - 1, cs, fst);
        let r = expand_cycle(out, data, fs, k, cs, fst).0;
        let f = fs[k - 1];
        assert forall|m: int, j: int|
            0 <= m < k && fs[m].selected && 0 <= j < fs[m].byte_size implies #[trigger] placed(
                r,
                fst,
                fs[m],
                j,
            ) == data[cs + selected_bytes(fs, m) + j] by {
            assert(fst + fs[m].full_offset + fs[m].byte_size <= out.len());
            if m < k - 1 {
                assert(placed(o, fst, fs[m], j) == data[cs + selected_bytes(fs, m) + j]);
                if f.selected {
                    assert(fs[m].full_offset + fs[m].byte_size <= f.full_offset || f.full_offset + f.byte_size
                        <= fs[m].full_offset);
                }
            }
        }
        assert forall|i: int|
            0 <= i < out.len() && (forall|m: int| 0 <= m < k ==> !in_field(#[trigger] fs[m], i - fst))
                implies #[trigger] r[i] == out[i] by {
            assert(!in_field(fs[k - 1], i - fst));
            assert(forall|m: int| 0 <= m < k - 1 ==> !in_field(#[trigger] fs[m], i - fst));
        }
    }
}

/// Selected field `m` of cycle `c` covers byte `i` of the full testcase.
pub open spec fn cycle_field_covers(fs: Seq<PlannedField>, full_len: int, c: int, m: int, i: int) -> bool {
    in_field(fs[m], i - c * full_len)
}

/// Whether some selected field of some of the first `n` cycles covers byte
/// `i` of the full testcase.
pub open spec fn covered(fs: Seq<PlannedField>, full_len: int, n: int, i: int) -> bool {
    exists|c: int, m: int| 0 <= c < n && 0 <= m < fs.len() && #[trigger] cycle_field_covers(fs, full_len, c, m, i)
}

proof fn lemma_expand_cycles_places(
    config: PrismFuzzConfig,
    data: Seq<u8>,
    plan: InputPlan,
    full_len: int,
    n: int,
)
    requires
        0 <= n,
        0 <= full_len,
        plan_fits(plan, full_len),
        fields_disjoint(plan.fields@),
        n * full_len <= required_input_len_spec(config, full_len),
        expand_cycles(config, data, plan, full_len, n).1,
    ensures
        expand_cycles(config, data, plan, full_len, n).0.len() == required_input_len_spec(config, full_len),
        forall|c: int, m: int, j: int|
            0 <= c < n && 0 <= m < plan.fields@.len() && plan.fields@[m].selected && 0 <= j
                < plan.fields@[m].byte_size ==> #[trigger] frame_byte(
                expand_cycles(config, data, plan, full_len, n).0,
                full_len,
                c,
                plan.fields@[m],
                j,
            ) == compact_byte(data, plan.compact_frame_size as int, c, selected_bytes(plan.fields@, m), j),
        forall|i: int|
            0 <= i < expand_cycles(config, data, plan, full_len, n).0.len() && !covered(
                plan.fields@,
                full_len,
                n,
                i,
            ) ==> #[trigger] expand_cycles(config, data, plan, full_len, n).0[i] == 0,
    decreases n,
{
    let fs = plan.fields@;
    if n > 0 {
        assert((n - 1) * full_len <= n * full_len) by (nonlinear_arith)
            requires n > 0, full_len >= 0;
        lemma_expand_cycles_places(config, data, plan, full_len, n - 1);
        let o = expand_cycles(config, data, plan, full_len, n - 1).0;
        let fst = (n - 1) * full_len;
        let cs = (n - 1) * plan.compact_frame_size;
        assert(fst + full_len == n * full_len) by (nonlinear_arith)
            requires fst == (n - 1) * full_len;
        assert(0 <= fst) by (nonlinear_arith)
            requires fst == (n - 1) * full_len, n > 0, full_len >= 0;
        lemma_expand_cycle_places(o, data, fs, fs.len() as int, cs, fst);
        lemma_expand_cycle_cursor(o, data, fs, fs.len() as int, cs, fst);
        let r = expand_cycles(config, data, plan, full_len, n).0;
        assert(r == expand_cycle(o, data, fs, fs.len() as int, cs, fst).0);
        assert forall|c: int, m: int, j: int|
            0 <= c < n && 0 <= m < fs.len() && fs[m].selected && 0 <= j < fs[m].byte_size implies #[trigger] frame_byte(
                r,
                full_len,
                c,
                plan.fields@[m],
                j,
            ) == compact_byte(data, plan.compact_frame_size as int, c, selected_bytes(fs, m), j) by {
            if c < n - 1 {
                let p = c * full_len + fs[m].full_offset + j;
                assert(frame_byte(o, full_len, c, fs[m], j) == compact_byte(
                    data,
                    plan.compact_frame_size as int,
                    c,
                    selected_bytes(fs, m),
                    j,
                ));
                assert((c + 1) * full_len <= fst) by (nonlinear_arith)
                    requires c + 1 <= n - 1, full_len >= 0, fst == (n - 1) * full_len;
                assert(c * full_len + full_len == (c + 1) * full_len) by (nonlinear_arith);
                assert(0 <= c * full_len) by (nonlinear_arith)
                    requires c >= 0, full_len >= 0;
                assert(fs[m].full_offset + fs[m].byte_size <= full_len);
                assert forall|m2: int| 0 <= m2 < fs.len() implies !in_field(#[trigger] fs[m2], p - fst) by {}
                assert(0 <= p < o.len());
                assert(r[p] == o[p]);
            } else {
                assert(c * full_len == fst);
                assert(c * plan.compact_frame_size == cs);
                assert(placed(r, fst, fs[m], j) == data[cs + selected_bytes(fs, m) + j]);
            }
        }
        assert forall|i: int| 0 <= i < r.len() && !covered(fs, full_len, n, i) implies #[trigger] r[i] == 0 by {
            assert forall|m2: int| 0 <= m2 < fs.len() implies !in_field(#[trigger] fs[m2], i - fst) by {
                if in_field(fs[m2], i - fst) {
                    assert(cycle_field_covers(fs, full_len, n - 1, m2, i));
                    assert(covered(fs, full_len, n, i));
                }
            }
            assert(!covered(fs, full_len, n - 1, i)) by {
                if covered(fs, full_len, n - 1, i) {
                    let (c, m) = choose|c: int, m: int|
                        0 <= c < n - 1 && 0 <= m < fs.len() && #[trigger] cycle_field_covers(fs, full_len, c, m, i);
                    assert(cycle_field_covers(fs, full_len, c, m, i));
                    assert(covered(fs, full_len, n, i));
                }
            }
        }
    }
}

/// Expansion of data that covers the compact frames, with a plan whose
/// selected fields fill the compact frame, succeeds; it places byte `j` of
/// each selected field `m` of each cycle `c` of the compact input (at the
/// field's compact offset, the bytes of the selected fields before it) at
/// the field's offset in full frame `c`, and leaves every other byte zero;
/// so compacting the result again gives the compact frames back.  Stated
/// for plans whose selected fields do not overlap in the full frame.
pub proof fn lemma_compact_expansion_places(
    config: PrismFuzzConfig,
    data: Seq<u8>,
    plan: InputPlan,
    full_len: int,
)
    requires
        0 <= full_len,
        plan_fits(plan, full_len),
        fields_disjoint(plan.fields@),
        selected_bytes(plan.fields@, plan.fields@.len() as int) == plan.compact_frame_size,
        effective_cycles_spec(config) * full_len <= required_input_len_spec(config, full_len),
        data.len() >= required_input_len_spec(config, plan.compact_frame_size as int),
    ensures
        expanded_input(config, data, plan, full_len) is Some,
        ({
            let e = expanded_input(config, data, plan, full_len).unwrap();
            &&& e.len() == required_input_len_spec(config, full_len)
            &&& forall|c: int, m: int, j: int|
                0 <= c < effective_cycles_spec(config) && 0 <= m < plan.fields@.len()
                    && plan.fields@[m].selected && 0 <= j < plan.fields@[m].byte_size
                    ==> #[trigger] frame_byte(e, full_len, c, plan.fields@[m], j) == compact_byte(
                    data,
                    plan.compact_frame_size as int,
                    c,
                    selected_bytes(plan.fields@, m),
                    j,
                )
            &&& forall|i: int|
                0 <= i < e.len() && !covered(plan.fields@, full_len, effective_cycles_spec(config), i)
                    ==> #[trigger] e[i] == 0
        }),
{
    lemma_expansion_succeeds(config, data, plan, full_len);
    lemma_expand_cycles_places(config, data, plan, full_len, effective_cycles_spec(config));
}

proof fn lemma_expand_cycles_ok(config: PrismFuzzConfig, data: Seq<u8>, plan: InputPlan, full_len: int, n: int)
    requires
        0 <= n,
    ensures
        expand_cycles(config, data, plan, full_len, n).1 == (n == 0 || selected_bytes(
            plan.fields@,
            plan.fields@.len() as int,
        ) == plan.compact_frame_size),
    decreases n,
{
    if n > 0 {
        lemma_expand_cycles_ok(config, data, plan, full_len, n - 1);
        let o = expand_cycles(config, data, plan, full_len, n - 1).0;
        lemma_expand_cycle_cursor(
            o,
            data,
            plan.fields@,
            plan.fields@.len() as int,
            (n - 1) * plan.compact_frame_size,
            (n - 1) * full_len,
        );
    }
}

/// Expansion succeeds exactly when the data covers the compact frames of
/// every cycle and the plan's selected fields fill the compact frame (as
/// they do in every plan `build_input_plan` makes).
pub proof fn lemma_expansion_succeeds(config: PrismFuzzConfig, data: Seq<u8>, plan: InputPlan, full_len: int)
    ensures
        expanded_input(config, data, plan, full_len) is Some <==> (data.len() >= required_input_len_spec(
            config,
            plan.compact_frame_size as int,
        ) && selected_bytes(plan.fields@, plan.fields@.len() as int) == plan.compact_frame_size),
{
    lemma_expand_cycles_ok(config, data, plan, full_len, effective_cycles_spec(config));
}

/// The full testcase for a compact input (see `expanded_input`).
pub fn expand_compact_input(config: &PrismFuzzConfig, data: &[u8], plan: &InputPlan, full_frame_len: usize) -> (r:
    Option<Vec<u8>>)
    requires
        plan_fits(*plan, full_frame_len as int),
        effective_cycles_spec(*config) * full_frame_len <= required_input_len_spec(*config, full_frame_len as int),
        data@.len() >= required_input_len_spec(*config, plan.compact_frame_size as int) ==> effective_cycles_spec(*config)
            * plan.compact_frame_size <= data@.len(),
    ensures
        match r {
            Some(v) => expanded_input(*config, data@, *plan, full_frame_len as int) == Some(v@),
            None => expanded_input(*config, data@, *plan, full_frame_len as int) is None,
        },
{
    let cycles = effective_cycles(config);
    let cl = plan.compact_frame_size;
    let need = required_input_len(config, cl);
    if data.len() < need {
        return None;
    }
    let total = required_input_len(config, full_frame_len);
    let mut out: Vec<u8> = Vec::new();
    let mut z: usize = 0;
    while z < total
        invariant
            z <= total,
            out@ == Seq::new(z as nat, |i: int| 0u8),
        decreases total - z,
    {
        out.push(0);
        z += 1;
        assert(out@ =~= Seq::new(z as nat, |i: int| 0u8));
    }
    let ghost fs = plan.fields@;
    let nf = plan.fields.len();
    let dl = data.len();
    proof { lemma_selected_bytes_mono(fs, 0, nf as int); }
    let mut c: usize = 0;
    while c < cycles
        invariant
            c <= cycles,
            cycles == effective_cycles_spec(*config),
            cycles * full_frame_len <= total,
            cycles * cl <= dl,
            dl == data@.len(),
            cl == plan.compact_frame_size,
            total == out@.len(),
            fs == plan.fields@,
            nf == fs.len(),
            plan_fits(*plan, full_frame_len as int),
            expand_cycles(*config, data@, *plan, full_frame_len as int, c as int) == (out@, true),
        decreases cycles - c,
    {
        assert(c * cl + cl <= cycles * cl) by (nonlinear_arith)
            requires c < cycles;
        assert(c * full_frame_len + full_frame_len <= cycles * full_frame_len) by (nonlinear_arith)
            requires c < cycles;
        let cs = c * cl;
        let fst = c * full_frame_len;
        let ghost o0 = out@;
        let mut cursor: usize = 0;
        let mut k: usize = 0;
        while k < nf
            invariant
                k <= nf,
                nf == fs.len(),
                fs == plan.fields@,
                plan_fits(*plan, full_frame_len as int),
                cs + cl <= dl,
                dl == data@.len(),
                fst + full_frame_len <= total,
                total == out@.len(),
                cl == plan.compact_frame_size,
                selected_bytes(fs, nf as int) <= cl,
                expand_cycle(o0, data@, fs, k as int, cs as int, fst as int) == (out@, cursor as int),
            decreases nf - k,
        {
            proof {
                lemma_expand_cycle_cursor(o0, data@, fs, k as int, cs as int, fst as int);
                lemma_selected_bytes_mono(fs, k + 1, nf as int);
            }
            let f = &plan.fields[k];
            if f.selected {
                assert(f.full_offset + f.byte_size <= full_frame_len);
                assert(cursor + f.byte_size <= cl);
                let d = fst + f.full_offset;
                let ghost ob = out@;
                let mut j: usize = 0;
                while j < f.byte_size
                    invariant
                        j <= f.byte_size,
                        d + f.byte_size <= total,
                        cs + cursor + f.byte_size <= dl,
                        total == out@.len(),
                        dl == data@.len(),
                        out@ == Seq::new(ob.len(), |i: int| if d <= i < d + j { data@[cs + cursor + (i - d)] } else { ob[i] }),
                    decreases f.byte_size - j,
                {
                    out.set(d + j, data[cs + cursor + j]);
                    j += 1;
                    assert(out@ =~= Seq::new(ob.len(), |i: int| if d <= i < d + j { data@[cs + cursor + (i - d)] } else { ob[i] }));
                }
                cursor = cursor + f.byte_size;
            }
            k += 1;
        }
        if cursor != cl {
            proof { lemma_expand_stays_failed(*config, data@, *plan, full_frame_len as int, c + 1, cycles as int); }
            return None;
        }
        c += 1;
    }
    Some(out)
}

/// The indices into the full frame's byte weights that make up the compact
/// frame's weights: each selected field's bytes, in order.
pub open spec fn compact_sources(fs: Seq<PlannedField>, k: int) -> Seq<int>
    decreases k,
{
    if k <= 0 {
        Seq::empty()
    } else {
        compact_sources(fs, k - 1) + if fs[k - 1].selected {
            Seq::new(fs[k - 1].byte_size as nat, |j: int| fs[k - 1].full_offset + j)
        } else {
            Seq::empty()
        }
    }
}

/// Where each byte of the compact frame takes its weight from in the full
/// frame (see `compact_sources`).
pub fn compact_weight_sources(plan: &InputPlan) -> (r: Vec<usize>)
    requires
        forall|k: int|
            0 <= k < plan.fields@.len() && (#[trigger] plan.fields@[k]).selected ==> plan.fields@[k].full_offset
                + plan.fields@[k].byte_size <= usize::MAX,
    ensures
        r@.map_values(|x: usize| x as int) == compact_sources(plan.fields@, plan.fields@.len() as int),
{
    let ghost fs = plan.fields@;
    let mut out: Vec<usize> = Vec::new();
    let mut k: usize = 0;
    while k < plan.fields.len()
        invariant
            k <= fs.len(),
            fs == plan.fields@,
            forall|m: int|
                0 <= m < fs.len() && (#[trigger] fs[m]).selected ==> fs[m].full_offset + fs[m].byte_size <= usize::MAX,
            out@.map_values(|x: usize| x as int) == compact_sources(fs, k as int),
        decreases fs.len() - k,
    {
        let f = &plan.fields[k];
        let ghost before = out@.map_values(|x: usize| x as int);
        if f.selected {
            let mut j: usize = 0;
            while j < f.byte_size
                invariant
                    j <= f.byte_size,
                    f.full_offset + f.byte_size <= usize::MAX,
                    out@.map_values(|x: usize| x as int) == before + Seq::new(j as nat, |t: int| f.full_offset + t),
                decreases f.byte_size - j,
            {
                let ghost ob = out@;
                out.push(f.full_offset + j);
                assert(out@.map_values(|x: usize| x as int) =~= ob.map_values(|x: usize| x as int).push(f.full_offset + j));
                j += 1;
                assert(out@.map_values(|x: usize| x as int) =~= before + Seq::new(j as nat, |t: int| f.full_offset + t));
            }
        } else {
            assert(before + Seq::<int>::empty() =~= before);
        }
        k += 1;
    }
    out
}

/// The roles joined with commas, or `<none>` when there are none.
pub open spec fn roles_text(roles: Seq<Seq<char>>) -> Seq<char> {
    if roles.len() == 0 {
        "<none>"@
    } else {
        crate::render::join_sep(roles, |r: Seq<char>| r, ","@)
    }
}

/// The roles joined with commas, or `<none>`.
pub fn format_roles(roles: &[String]) -> (r: String)
    ensures
        r@ == roles_text(roles@.map_values(|s: String| s@)),
{
    let ghost rv = roles@.map_values(|s: String| s@);
    if roles.len() == 0 {
        return crate::ddg_graph::text_of("<none>");
    }
    let ghost f = |r: Seq<char>| r;
    let mut out: Vec<char> = Vec::new();
    let mut i: usize = 0;
    while i < roles.len()
        invariant
            i <= roles@.len(),
            rv == roles@.map_values(|s: String| s@),
            f == (|r: Seq<char>| r),
            out@ == crate::render::join_sep(rv.take(i as int), f, ","@),
        decreases roles@.len() - i,
    {
        proof { crate::render::lemma_join_sep_step(rv, i as int, f, ","@); }
        if i > 0 {
            push_str(&mut out, ",");
        }
        push_str(&mut out, roles[i].as_str());
        i += 1;
    }
    assert(rv.take(rv.len() as int) == rv);
    string_from(out.as_slice())
}


/// The inclusive byte range of a field: `[offset..offset+size-1]` (with the
/// upper end at `offset` for an empty field).
pub open spec fn span_text(offset: usize, size: usize) -> Seq<char> {
    let last: int = if size == 0 { offset as int } else { offset + size - 1 };
    "["@ + decimal(offset as nat) + ".."@ + decimal(last as nat) + "]"@
}

/// The inclusive byte range of a field (see `span_text`).
pub fn field_span(offset: usize, size: usize) -> (r: String)
    requires
        size == 0 || offset + size - 1 <= usize::MAX,
    ensures
        r@ == span_text(offset, size),
{
    let last = if size == 0 { offset } else { offset + (size - 1) };
    let mut out = chars_of("[");
    push_decimal(&mut out, offset as u64);
    push_str(&mut out, "..");
    push_decimal(&mut out, last as u64);
    push_str(&mut out, "]");
    string_from(out.as_slice())
}

/// The compact range of a field, or `SKIP` for a field left out.
pub fn compact_span(compact_offset: Option<usize>, size: usize) -> (r: String)
    requires
        compact_offset matches Some(o) ==> (size == 0 || o + size - 1 <= usize::MAX),
    ensures
        r@ == match compact_offset {
            Some(o) => span_text(o, size),
            None => "SKIP"@,
        },
{
    match compact_offset {
        Some(o) => field_span(o, size),
        None => crate::ddg_graph::text_of("SKIP"),
    }
}

/// Field `f` is selected and covers byte `idx` of the compact frame.
pub open spec fn owns_byte(f: PlannedField, idx: int) -> bool {
    f.selected && match f.compact_offset {
        Some(o) => o <= idx < o + f.byte_size,
        None => false,
    }
}

/// The first field from `k` on that covers compact byte `idx`.
pub open spec fn owner_from(fs: Seq<PlannedField>, idx: int, k: int) -> Option<int>
    decreases fs.len() - k,
{
    if k >= fs.len() || k < 0 {
        None
    } else if owns_byte(fs[k], idx) {
        Some(k)
    } else {
        owner_from(fs, idx, k + 1)
    }
}

/// The name of the field that supplies byte `idx` of the compact frame.
pub fn compact_byte_owner(plan: &InputPlan, idx: usize) -> (r: Option<String>)
    ensures
        match owner_from(plan.fields@, idx as int, 0) {
            Some(k) => r matches Some(n) && n@ == plan.fields@[k].name@,
            None => r is None,
        },
{
    let ghost fs = plan.fields@;
    let mut k: usize = 0;
    while k < plan.fields.len()
        invariant
            k <= fs.len(),
            fs == plan.fields@,
            owner_from(fs, idx as int, 0) == owner_from(fs, idx as int, k as int),
        decreases fs.len() - k,
    {
        let f = &plan.fields[k];
        if f.selected {
            match f.compact_offset {
                Some(o) => {
                    if o <= idx && idx - o < f.byte_size {
                        return Some(string_from(chars_of(f.name.as_str()).as_slice()));
                    }
                },
                None => {},
            }
        }
        k += 1;
    }
    None
}

} // verus!
