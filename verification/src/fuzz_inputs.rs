//! The input fields the fuzzers mutate: read from the analysis guide or from
//! the harness's field table, and the value-level mutations applied to them.
use vstd::prelude::*;
use crate::text::{chars_of, eq_str, string_from, trim, trim_spec};
use crate::fields::{FieldRole, FieldValueModel, InputFieldSpec};
use crate::mutators::{i16_bytes, pick, pick_usize, MutationResult};
use crate::metadata::lookup;
use crate::ddg_graph::opt_chars;
use crate::ddg_guide::{looks_boolish, looks_boolish_spec};

verus! {

// ---------------------------------------------------------------------------
// Layout and guide records
// ---------------------------------------------------------------------------

/// A field of the program layout as the fuzzers read it.
#[derive(Debug, Clone)]
pub struct FieldLayout {
    pub name: Option<String>,
    pub llvm_type: String,
    pub byte_size: u64,
    pub byte_offset: u64,
}

/// The program layout as the fuzzers read it.
#[derive(Debug, Clone)]
pub struct ProgramLayout {
    pub struct_name: String,
    pub total_bytes: u64,
    pub fields: Vec<FieldLayout>,
}

/// An input field as the weights guide describes it.
#[derive(Debug, Clone)]
pub struct InputFieldGuide {
    pub name: String,
    pub llvm_type: String,
    pub byte_size: usize,
    pub byte_offset: usize,
    /// `bool`, `range_i16` or anything else (raw bytes).
    pub model: String,
    pub roles: Vec<String>,
    pub target_values: Vec<i64>,
}

/// Whether a role list names `role`.
pub open spec fn has_role(roles: Seq<String>, role: Seq<char>) -> bool {
    exists|i: int| 0 <= i < roles.len() && #[trigger] roles[i]@ == role
}

/// The role a guide's role list gives: inhibitor over activator over driver.
pub open spec fn role_of(roles: Seq<String>) -> FieldRole {
    if has_role(roles, "inhibitor"@) {
        FieldRole::Inhibitor
    } else if has_role(roles, "activator"@) {
        FieldRole::Activator
    } else if has_role(roles, "driver"@) {
        FieldRole::Driver
    } else {
        FieldRole::Other
    }
}

/// Whether `m` is the value model a guide's model name gives: `bool` a
/// flag, `range_i16` an `i16` with the target values cut to 16 bits, any
/// other name raw bytes.
pub open spec fn model_from_guide(m: FieldValueModel, model: Seq<char>, targets: Seq<i64>) -> bool {
    match m {
        FieldValueModel::Bool => model == "bool"@,
        FieldValueModel::I16 { targets: t } => model == "range_i16"@ && t@ == targets.map_values(
            |v: i64| v as i16,
        ),
        FieldValueModel::Raw => model != "bool"@ && model != "range_i16"@,
    }
}

fn has_role_exec(roles: &Vec<String>, role: &str) -> (b: bool)
    ensures
        b == has_role(roles@, role@),
{
    let mut i: usize = 0;
    while i < roles.len()
        invariant
            i <= roles@.len(),
            forall|k: int| 0 <= k < i ==> #[trigger] roles@[k]@ != role@,
        decreases roles@.len() - i,
    {
        if eq_str(chars_of(roles[i].as_str()).as_slice(), role) {
            return true;
        }
        i += 1;
    }
    false
}

fn role_exec(roles: &Vec<String>) -> (r: FieldRole)
    ensures
        r == role_of(roles@),
{
    if has_role_exec(roles, "inhibitor") {
        FieldRole::Inhibitor
    } else if has_role_exec(roles, "activator") {
        FieldRole::Activator
    } else if has_role_exec(roles, "driver") {
        FieldRole::Driver
    } else {
        FieldRole::Other
    }
}

/// The input field a guide entry describes.
pub fn field_from_guide(g: &InputFieldGuide) -> (f: InputFieldSpec)
    ensures
        f.name@ == g.name@,
        f.offset == g.byte_offset,
        f.size == g.byte_size,
        model_from_guide(f.model, g.model@, g.target_values@),
        f.role == role_of(g.roles@),
{
    let m = chars_of(g.model.as_str());
    let model = if eq_str(m.as_slice(), "bool") {
        FieldValueModel::Bool
    } else if eq_str(m.as_slice(), "range_i16") {
        let mut t: Vec<i16> = Vec::new();
        let mut i: usize = 0;
        while i < g.target_values.len()
            invariant
                i <= g.target_values@.len(),
                t@ == g.target_values@.take(i as int).map_values(|v: i64| v as i16),
            decreases g.target_values@.len() - i,
        {
            t.push(#[verifier::truncate] (g.target_values[i] as i16));
            i += 1;
            assert(t@ =~= g.target_values@.take(i as int).map_values(|v: i64| v as i16));
        }
        assert(g.target_values@.take(g.target_values@.len() as int) == g.target_values@);
        FieldValueModel::I16 { targets: t }
    } else {
        FieldValueModel::Raw
    };
    InputFieldSpec {
        name: string_from(chars_of(g.name.as_str()).as_slice()),
        offset: g.byte_offset,
        size: g.byte_size,
        model,
        role: role_exec(&g.roles),
    }
}

/// The input fields of a weights guide, in order (see `field_from_guide`).
pub fn fields_from_guides(guides: &Vec<InputFieldGuide>) -> (r: Vec<InputFieldSpec>)
    ensures
        r@.len() == guides@.len(),
        forall|k: int|
            0 <= k < guides@.len() ==> {
                let f = #[trigger] r@[k];
                let g = guides@[k];
                &&& f.name@ == g.name@
                &&& f.offset == g.byte_offset
                &&& f.size == g.byte_size
                &&& model_from_guide(f.model, g.model@, g.target_values@)
                &&& f.role == role_of(g.roles@)
            },
{
    let mut out: Vec<InputFieldSpec> = Vec::new();
    let mut i: usize = 0;
    while i < guides.len()
        invariant
            i <= guides@.len(),
            out@.len() == i,
            forall|k: int|
                0 <= k < i ==> {
                    let f = #[trigger] out@[k];
                    let g = guides@[k];
                    &&& f.name@ == g.name@
                    &&& f.offset == g.byte_offset
                    &&& f.size == g.byte_size
                    &&& model_from_guide(f.model, g.model@, g.target_values@)
                    &&& f.role == role_of(g.roles@)
                },
        decreases guides@.len() - i,
    {
        out.push(field_from_guide(&guides[i]));
        i += 1;
    }
    out
}

// ---------------------------------------------------------------------------
// Input fields from the harness field table
// ---------------------------------------------------------------------------

/// A field as the harness reports it: name (when it has one), size and
/// whether it is an input.
#[derive(Debug, Clone)]
pub struct HarnessField {
    pub name: Option<String>,
    pub size: usize,
    pub is_input: bool,
}

/// The LLVM type of each named layout field, by name (a later field of the
/// same name wins).
pub open spec fn layout_types(fs: Seq<FieldLayout>) -> Seq<(Seq<char>, Seq<char>)> {
    crate::text::collect_some(
        fs,
        |f: FieldLayout|
            match f.name {
                Some(n) => Some((n@, f.llvm_type@)),
                None => None,
            },
    )
}

/// The value model of an input field: a flag when it looks like one, an
/// `i16` with the inferred targets for a 2-byte `i16`, else raw bytes.
pub open spec fn runtime_model_ok(
    m: FieldValueModel,
    name: Seq<char>,
    llvm_type: Seq<char>,
    size: usize,
    targets: Seq<i16>,
) -> bool {
    if looks_boolish_spec(name, llvm_type, size as int) {
        m is Bool
    } else if trim_spec(llvm_type) == "i16"@ && size == 2 {
        m matches FieldValueModel::I16 { targets: t } && t@ == targets
    } else {
        m is Raw
    }
}

/// The input fields after the first `k` harness fields: input fields with
/// names are packed one after another (the position saturating), and those
/// that fit in the frame with a nonzero size are kept, typed from the layout
/// (`i8` when the layout does not name them).  Gives (name, offset, size,
/// type) of each kept field and the packed position.
pub open spec fn packed_inputs(hs: Seq<HarnessField>, k: int, frame_size: int, types: Seq<(Seq<char>, Seq<char>)>) -> (
    Seq<(Seq<char>, usize, usize, Seq<char>)>,
    int,
)
    decreases k,
{
    if k <= 0 {
        (Seq::empty(), 0)
    } else {
        let (acc, packed) = packed_inputs(hs, k - 1, frame_size, types);
        let h = hs[k - 1];
        if !h.is_input {
            (acc, packed)
        } else {
            match h.name {
                None => (acc, packed),
                Some(n) => {
                    let next = if packed + h.size > usize::MAX { usize::MAX as int } else { packed + h.size };
                    if packed + h.size > frame_size || h.size == 0 {
                        (acc, next)
                    } else {
                        let t = match lookup(types, n@) {
                            Some(t) => t,
                            None => "i8"@,
                        };
                        (acc.push((n@, packed as usize, h.size, t)), next)
                    }
                },
            }
        }
    }
}

fn type_for(layout: &ProgramLayout, name: &[char]) -> (r: Vec<char>)
    ensures
        r@ == match lookup(layout_types(layout.fields@), name@) {
            Some(t) => t,
            None => "i8"@,
        },
{
    let ghost f = |f: FieldLayout|
        match f.name {
            Some(n) => Some((n@, f.llvm_type@)),
            None => None,
        };
    let ghost fs = layout.fields@;
    let mut i = layout.fields.len();
    proof {
        assert(fs.take(i as int) == fs);
    }
    while i > 0
        invariant
            i <= fs.len(),
            fs == layout.fields@,
            f == (|f: FieldLayout|
                match f.name {
                    Some(n) => Some((n@, f.llvm_type@)),
                    None => None,
                }),
            lookup(layout_types(fs), name@) == lookup(crate::text::collect_some(fs.take(i as int), f), name@),
        decreases i,
    {
        let ghost prev = crate::text::collect_some(fs.take(i - 1), f);
        let ghost cur = crate::text::collect_some(fs.take(i as int), f);
        proof { crate::text::lemma_collect_some_step(fs, i - 1, f); }
        let fl = &layout.fields[i - 1];
        match &fl.name {
            Some(n) => {
                assert(cur == prev.push((n@, fl.llvm_type@)));
                assert(cur.drop_last() == prev);
                if crate::text::chars_eq(chars_of(n.as_str()).as_slice(), name) {
                    return chars_of(fl.llvm_type.as_str());
                }
            },
            None => {
                assert(cur == prev);
            },
        }
        i -= 1;
    }
    chars_of("i8")
}

/// The input fields from the harness's field table: the named input fields
/// packed in table order into frames of `frame_size` bytes (see
/// `packed_inputs`), each with its value model (see `runtime_model_ok`) and
/// no particular role.
pub fn runtime_field_specs(
    layout: &ProgramLayout,
    harness_fields: &Vec<HarnessField>,
    frame_size: usize,
    i16_targets: &[i16],
) -> (r: Vec<InputFieldSpec>)
    ensures
        ({
            let (kept, _) = packed_inputs(
                harness_fields@,
                harness_fields@.len() as int,
                frame_size as int,
                layout_types(layout.fields@),
            );
            &&& r@.len() == kept.len()
            &&& forall|k: int|
                0 <= k < kept.len() ==> {
                    let f = #[trigger] r@[k];
                    let (n, off, size, t) = kept[k];
                    &&& f.name@ == n
                    &&& f.offset == off
                    &&& f.size == size
                    &&& f.role == FieldRole::Other
                    &&& runtime_model_ok(f.model, n, t, size, i16_targets@)
                }
        }),
{
    let ghost types = layout_types(layout.fields@);
    let ghost hs = harness_fields@;
    let mut out: Vec<InputFieldSpec> = Vec::new();
    let mut packed: usize = 0;
    let mut i: usize = 0;
    while i < harness_fields.len()
        invariant
            i <= hs.len(),
            hs == harness_fields@,
            types == layout_types(layout.fields@),
            packed_inputs(hs, i as int, frame_size as int, types).1 == packed as int,
            ({
                let kept = packed_inputs(hs, i as int, frame_size as int, types).0;
                &&& out@.len() == kept.len()
                &&& forall|k: int|
                    0 <= k < kept.len() ==> {
                        let f = #[trigger] out@[k];
                        let (n, off, size, t) = kept[k];
                        &&& f.name@ == n
                        &&& f.offset == off
                        &&& f.size == size
                        &&& f.role == FieldRole::Other
                        &&& runtime_model_ok(f.model, n, t, size, i16_targets@)
                    }
            }),
        decreases hs.len() - i,
    {
        let h = &harness_fields[i];
        if h.is_input {
            match &h.name {
                None => {},
                Some(n) => {
                    let size = h.size;
                    let offset = packed;
                    packed = packed.saturating_add(size);
                    let fits = size <= frame_size && offset <= frame_size - size;
                    if fits && size != 0 {
                        let nc = chars_of(n.as_str());
                        let t = type_for(layout, nc.as_slice());
                        let ts = string_from(t.as_slice());
                        let model = if looks_boolish(n.as_str(), ts.as_str(), size) {
                            FieldValueModel::Bool
                        } else if eq_str(trim(t.as_slice()).as_slice(), "i16") && size == 2 {
                            FieldValueModel::I16 { targets: crate::text::copy_of(i16_targets) }
                        } else {
                            FieldValueModel::Raw
                        };
                        out.push(InputFieldSpec {
                            name: string_from(nc.as_slice()),
                            offset,
                            size,
                            model,
                            role: FieldRole::Other,
                        });
                    }
                },
            }
        }
        i += 1;
    }
    out
}

// ---------------------------------------------------------------------------
// Value-level mutations
// ---------------------------------------------------------------------------

/// The values an input field offers the range mutator: a flag offers 0 and
/// 1, an `i16` field its targets' bytes, a raw field nothing.
pub open spec fn range_candidates(m: FieldValueModel) -> Seq<Seq<u8>> {
    match m {
        FieldValueModel::Bool => seq![seq![0u8], seq![1u8]],
        FieldValueModel::I16 { targets } => targets@.map_values(|v: i16| i16_bytes(v)),
        FieldValueModel::Raw => Seq::empty(),
    }
}

/// The range mutator's entries: (offset, size, candidate values) of each
/// field that offers at least one value.
pub open spec fn range_entries(fs: Seq<InputFieldSpec>) -> Seq<(usize, usize, Seq<Seq<u8>>)> {
    crate::text::collect_some(
        fs,
        |f: InputFieldSpec|
            if range_candidates(f.model).len() > 0 {
                Some((f.offset, f.size, range_candidates(f.model)))
            } else {
                None
            },
    )
}

/// The range mutator's entries for some input fields (see `range_entries`).
pub fn range_mutator_fields(input_fields: &[InputFieldSpec]) -> (r: Vec<(usize, usize, Vec<Vec<u8>>)>)
    ensures
        r@.map_values(|e: (usize, usize, Vec<Vec<u8>>)| (e.0, e.1, crate::mutators::candidates_view(e.2@)))
            == range_entries(input_fields@),
{
    let ghost g = |f: InputFieldSpec|
        if range_candidates(f.model).len() > 0 {
            Some((f.offset, f.size, range_candidates(f.model)))
        } else {
            None
        };
    let mut out: Vec<(usize, usize, Vec<Vec<u8>>)> = Vec::new();
    let mut i: usize = 0;
    while i < input_fields.len()
        invariant
            i <= input_fields@.len(),
            g == (|f: InputFieldSpec|
                if range_candidates(f.model).len() > 0 {
                    Some((f.offset, f.size, range_candidates(f.model)))
                } else {
                    None
                }),
            out@.map_values(|e: (usize, usize, Vec<Vec<u8>>)| (e.0, e.1, crate::mutators::candidates_view(e.2@)))
                == crate::text::collect_some(input_fields@.take(i as int), g),
        decreases input_fields@.len() - i,
    {
        proof { crate::text::lemma_collect_some_step(input_fields@, i as int, g); }
        let f = &input_fields[i];
        let mut cands: Vec<Vec<u8>> = Vec::new();
        match &f.model {
            FieldValueModel::Bool => {
                let mut z: Vec<u8> = Vec::new();
                z.push(0);
                let mut o: Vec<u8> = Vec::new();
                o.push(1);
                cands.push(z);
                cands.push(o);
                assert(crate::mutators::candidates_view(cands@) =~= range_candidates(f.model));
            },
            FieldValueModel::I16 { targets } => {
                let mut k: usize = 0;
                while k < targets.len()
                    invariant
                        k <= targets@.len(),
                        crate::mutators::candidates_view(cands@) == targets@.take(k as int).map_values(|v: i16| i16_bytes(v)),
                    decreases targets@.len() - k,
                {
                    let ghost cb = cands@;
                    let v = targets[k];
                    let u: u32 = if v < 0 { (v as i32 + 65536) as u32 } else { v as u32 };
                    let mut b: Vec<u8> = Vec::new();
                    b.push((u % 256) as u8);
                    b.push((u / 256) as u8);
                    assert(b@ =~= i16_bytes(v));
                    cands.push(b);
                    k += 1;
                    assert(crate::mutators::candidates_view(cands@) =~= crate::mutators::candidates_view(cb).push(i16_bytes(v)));
                    assert(targets@.take(k as int).map_values(|v: i16| i16_bytes(v)) =~= targets@.take(k - 1).map_values(|v: i16| i16_bytes(v)).push(i16_bytes(v)));
                }
                assert(targets@.take(targets@.len() as int) == targets@);
            },
            FieldValueModel::Raw => {
                assert(crate::mutators::candidates_view(cands@) =~= range_candidates(f.model));
            },
        }
        if cands.len() > 0 {
            let ghost before = out@;
            let ghost cv = crate::mutators::candidates_view(cands@);
            out.push((f.offset, f.size, cands));
            assert(out@.map_values(|e: (usize, usize, Vec<Vec<u8>>)| (e.0, e.1, crate::mutators::candidates_view(e.2@)))
                =~= before.map_values(|e: (usize, usize, Vec<Vec<u8>>)| (e.0, e.1, crate::mutators::candidates_view(e.2@))).push((f.offset, f.size, cv)));
        }
        i += 1;
    }
    assert(input_fields@.take(input_fields@.len() as int) == input_fields@);
    out
}

/// What the range mutator does once it has picked an entry: with a drawn
/// frame and a drawn candidate value, it writes as much of the value as the
/// field and the testcase hold at the field's place in that frame.
pub open spec fn range_write(
    bytes: Seq<u8>,
    fs: int,
    off: int,
    size: int,
    cands: Seq<Seq<u8>>,
    d_frame: u64,
    d_value: u64,
) -> (MutationResult, Seq<u8>) {
    let fc: int = (bytes.len() as int) / fs;
    if fc == 0 || cands.len() == 0 {
        (MutationResult::Skipped, bytes)
    } else {
        let fi: int = ((d_frame as usize) % (fc as usize)) as int;
        let base = fi * fs + off;
        let val = cands[((d_value as usize) % (cands.len() as usize)) as int];
        let room: int = if bytes.len() > base { bytes.len() - base } else { 0 };
        let wl: int = if val.len() < size { if (val.len() as int) < room { val.len() as int } else { room } } else { if size < room { size } else { room } };
        (MutationResult::Mutated, Seq::new(bytes.len(), |i: int| if base <= i < base + wl { val[i - base] } else { bytes[i] }))
    }
}

/// Writes a candidate value of the picked entry (see `range_write`).
pub fn apply_range_value(
    bytes: &mut Vec<u8>,
    frame_size: usize,
    entry: &(usize, usize, Vec<Vec<u8>>),
    d_frame: u64,
    d_value: u64,
) -> (r: MutationResult)
    requires
        frame_size > 0,
        old(bytes)@.len() + entry.0 <= usize::MAX,
    ensures
        (r, final(bytes)@) == range_write(
            old(bytes)@,
            frame_size as int,
            entry.0 as int,
            entry.1 as int,
            crate::mutators::candidates_view(entry.2@),
            d_frame,
            d_value,
        ),
{
    let len = bytes.len();
    let fc = len / frame_size;
    if fc == 0 || entry.2.len() == 0 {
        return MutationResult::Skipped;
    }
    let fi = (#[verifier::truncate] (d_frame as usize)) % fc;
    assert(fi * frame_size + frame_size <= fc * frame_size) by (nonlinear_arith)
        requires fi < fc;
    assert(fc * frame_size <= len) by (nonlinear_arith)
        requires fc == len / frame_size, frame_size > 0;
    let base = fi * frame_size + entry.0;
    let vi = (#[verifier::truncate] (d_value as usize)) % entry.2.len();
    let val = &entry.2[vi];
    assert(val@ == crate::mutators::candidates_view(entry.2@)[vi as int]);
    let room = if len > base { len - base } else { 0 };
    let wl = if val.len() < entry.1 { if val.len() < room { val.len() } else { room } } else { if entry.1 < room { entry.1 } else { room } };
    let ghost orig = bytes@;
    let mut j: usize = 0;
    while j < wl
        invariant
            j <= wl,
            wl <= val@.len(),
            wl == 0 || base + wl <= len,
            len == bytes@.len(),
            bytes@ == Seq::new(orig.len(), |i: int| if base <= i < base + j { val@[i - base] } else { orig[i] }),
        decreases wl - j,
    {
        bytes.set(base + j, val[j]);
        j += 1;
        assert(bytes@ =~= Seq::new(orig.len(), |i: int| if base <= i < base + j { val@[i - base] } else { orig[i] }));
    }
    MutationResult::Mutated
}

/// The byte mutation: the byte at `idx` becomes `new_val`, or `new_val + 1`
/// (wrapping) when it already holds `new_val`; nothing past the end.
pub open spec fn byte_flip(bytes: Seq<u8>, idx: int, new_val: u8) -> (MutationResult, Seq<u8>) {
    if idx >= bytes.len() {
        (MutationResult::Skipped, bytes)
    } else {
        let v: u8 = if bytes[idx] == new_val { ((new_val + 1) % 256) as u8 } else { new_val };
        (MutationResult::Mutated, bytes.update(idx, v))
    }
}

/// Replaces the byte at `idx` with `new_val`, or `new_val + 1` (wrapping)
/// when it already holds `new_val`.
pub fn flip_byte(bytes: &mut Vec<u8>, idx: usize, new_val: u8) -> (r: MutationResult)
    ensures
        (r, final(bytes)@) == byte_flip(old(bytes)@, idx as int, new_val),
{
    if idx >= bytes.len() {
        return MutationResult::Skipped;
    }
    let v = if bytes[idx] == new_val { new_val.wrapping_add(1) } else { new_val };
    bytes.set(idx, v);
    MutationResult::Mutated
}

/// What the field-value mutation does once a frame and a field are picked:
/// a flag gets a drawn bit; a 2-byte `i16` field a target (80 in 100 draws,
/// when it has targets) or a drawn value; raw bytes get drawn bytes; nothing
/// when the field runs past the testcase or an `i16` field is not 2 bytes.
pub open spec fn field_value_write(bytes: Seq<u8>, start: int, f: InputFieldSpec, draws: Seq<u64>) -> (
    MutationResult,
    Seq<u8>,
) {
    let end = start + f.size;
    if end > bytes.len() {
        (MutationResult::Skipped, bytes)
    } else {
        match f.model {
            FieldValueModel::Bool => (MutationResult::Mutated, bytes.update(start, (draws[0] % 2) as u8)),
            FieldValueModel::I16 { targets } => if f.size != 2 {
                (MutationResult::Skipped, bytes)
            } else {
                let v: i16 = if draws[0] % 100 < 80 && targets@.len() > 0 {
                    targets@[((draws[1] as usize) % (targets@.len() as usize)) as int]
                } else {
                    draws[1] as i16
                };
                let b = i16_bytes(v);
                (MutationResult::Mutated, bytes.update(start, b[0]).update(start + 1, b[1]))
            },
            FieldValueModel::Raw => (
                MutationResult::Mutated,
                Seq::new(bytes.len(), |i: int| if start <= i < end { draws[i - start] as u8 } else { bytes[i] }),
            ),
        }
    }
}

/// Writes a value into field `f` of the frame starting at `frame_start`
/// (see `field_value_write`).
pub fn write_field_value(bytes: &mut Vec<u8>, frame_start: usize, f: &InputFieldSpec, draws: &[u64]) -> (r:
    MutationResult)
    requires
        draws@.len() >= 2,
        draws@.len() >= f.size,
        frame_start + f.offset + f.size <= usize::MAX,
        f.model is Bool && f.size == 0 ==> frame_start + f.offset < old(bytes)@.len(),
    ensures
        (r, final(bytes)@) == field_value_write(old(bytes)@, frame_start + f.offset, *f, draws@),
{
    let start = frame_start + f.offset;
    let end = start + f.size;
    if end > bytes.len() {
        return MutationResult::Skipped;
    }
    match &f.model {
        FieldValueModel::Bool => {
            bytes.set(start, (draws[0] % 2) as u8);
            MutationResult::Mutated
        },
        FieldValueModel::I16 { targets } => {
            if f.size != 2 {
                return MutationResult::Skipped;
            }
            let v: i16 = if draws[0] % 100 < 80 && targets.len() > 0 {
                targets[(#[verifier::truncate] (draws[1] as usize)) % targets.len()]
            } else {
                #[verifier::truncate] (draws[1] as i16)
            };
            let u: u32 = if v < 0 { (v as i32 + 65536) as u32 } else { v as u32 };
            bytes.set(start, (u % 256) as u8);
            bytes.set(start + 1, (u / 256) as u8);
            MutationResult::Mutated
        },
        FieldValueModel::Raw => {
            let ghost orig = bytes@;
            let mut j: usize = start;
            while j < end
                invariant
                    start <= j <= end <= bytes@.len(),
                    end == start + f.size,
                    draws@.len() >= f.size,
                    bytes@ == Seq::new(orig.len(), |i: int| if start <= i < j { draws@[i - start] as u8 } else { orig[i] }),
                decreases end - j,
            {
                bytes.set(j, #[verifier::truncate] (draws[j - start] as u8));
                j += 1;
                assert(bytes@ =~= Seq::new(orig.len(), |i: int| if start <= i < j { draws@[i - start] as u8 } else { orig[i] }));
            }
            MutationResult::Mutated
        },
    }
}

/// A 1-byte `i8` input named like a command, enable, start, reset, arm or
/// trigger is modelled as a flag.
pub proof fn lemma_flag_named_inputs_are_bool(
    m: FieldValueModel,
    name: Seq<char>,
    llvm_type: Seq<char>,
    targets: Seq<i16>,
)
    requires
        runtime_model_ok(m, name, llvm_type, 1, targets),
        trim_spec(llvm_type) == "i8"@,
        ({
            let n = crate::text::lower_seq(name);
            crate::text::starts_with_spec(n, "cmd"@) || crate::text::contains_spec(n, "enable"@)
                || crate::text::contains_spec(n, "start"@) || crate::text::contains_spec(n, "reset"@)
                || crate::text::contains_spec(n, "arm"@) || crate::text::contains_spec(n, "trigger"@)
        }),
    ensures
        m is Bool,
{
    crate::ddg_guide::lemma_flag_words_make_flags(name, llvm_type, 1);
}

/// The byte mutation always changes the byte it writes, and only that byte.
pub proof fn lemma_byte_flip_changes_byte(bytes: Seq<u8>, idx: int, new_val: u8)
    requires
        0 <= idx < bytes.len(),
    ensures
        byte_flip(bytes, idx, new_val).1.len() == bytes.len(),
        byte_flip(bytes, idx, new_val).1[idx] != bytes[idx],
        forall|i: int| 0 <= i < bytes.len() && i != idx ==> #[trigger] byte_flip(bytes, idx, new_val).1[i] == bytes[i],
{
}

/// The value mutations (range value, byte flip, field value) never change
/// the length of a testcase.
pub proof fn lemma_value_mutations_keep_length(
    bytes: Seq<u8>,
    frame_size: int,
    entry: (usize, usize, Seq<Seq<u8>>),
    d_frame: u64,
    d_value: u64,
    idx: int,
    new_val: u8,
    start: int,
    f: InputFieldSpec,
    draws: Seq<u64>,
)
    requires
        frame_size > 0,
        0 <= start,
        0 <= idx,
        f.model is Bool && f.size == 0 ==> start < bytes.len(),
    ensures
        range_write(bytes, frame_size, entry.0 as int, entry.1 as int, entry.2, d_frame, d_value).1.len() == bytes.len(),
        byte_flip(bytes, idx, new_val).1.len() == bytes.len(),
        field_value_write(bytes, start, f, draws).1.len() == bytes.len(),
{
}

} // verus!
