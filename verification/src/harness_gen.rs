//! Generation of the C harness that wraps a compiled ST program behind a
//! fixed ABI (`prism_alloc`, `prism_run`, `prism_get_state`, ...), from the
//! program's struct layout.  The generated text is specified piece by piece
//! below.
use vstd::prelude::*;
use crate::text::{
    chars_of, collect_some, decimal, eq_str, lemma_collect_some_step, parse_unsigned_spec,
    parse_usize, push_all, push_decimal, push_str, slice_of, starts_with_char,
    starts_with_char_exec, string_from, strip_prefixes, trim, trim_spec, trim_start_matches,
};
use crate::render::{join_all, lemma_join_all_step};
use crate::layout::{FieldLayout, FieldModel, LayoutModel, ProgramLayout, layouts_view};

verus! {

// ---------------------------------------------------------------------------
// LLVM types as C types
// ---------------------------------------------------------------------------

/// How a field is declared in C.
#[derive(Debug, Clone)]
pub enum CType {
    /// A scalar C type such as `int16_t`.
    Scalar { c_type: String },
    /// A fixed-size array.
    Array { element_c_type: String, count: usize },
    /// Raw bytes (pointers and unknown types).
    Opaque { byte_size: u64 },
    /// An embedded named struct.
    Nested { struct_name: String },
}

/// A C type as mathematical values.
pub enum CTypeModel {
    Scalar(Seq<char>),
    Array(Seq<char>, nat),
    Opaque(u64),
    Nested(Seq<char>),
}

impl View for CType {
    type V = CTypeModel;

    open spec fn view(&self) -> CTypeModel {
        match self {
            CType::Scalar { c_type } => CTypeModel::Scalar(c_type@),
            CType::Array { element_c_type, count } => CTypeModel::Array(
                element_c_type@,
                *count as nat,
            ),
            CType::Opaque { byte_size } => CTypeModel::Opaque(*byte_size),
            CType::Nested { struct_name } => CTypeModel::Nested(struct_name@),
        }
    }
}

/// The C type of an LLVM scalar type: `i8`..`i64` as `int8_t`..`int64_t`,
/// `float` and `double` as themselves.
pub open spec fn scalar_c_type(t: Seq<char>) -> Option<Seq<char>> {
    if t == "i8"@ {
        Some("int8_t"@)
    } else if t == "i16"@ {
        Some("int16_t"@)
    } else if t == "i32"@ {
        Some("int32_t"@)
    } else if t == "i64"@ {
        Some("int64_t"@)
    } else if t == "float"@ {
        Some("float"@)
    } else if t == "double"@ {
        Some("double"@)
    } else {
        None
    }
}

/// An LLVM integer type `iN` becomes the C integer of the same width,
/// `intN_t`, whichever of the widths it is.
pub proof fn lemma_integer_c_type_keeps_width(t: Seq<char>)
    ensures
        t.len() > 0 && t[0] == 'i' && scalar_c_type(t) is Some ==> scalar_c_type(t) == Some(
            "int"@ + t.drop_first() + "_t"@,
        ),
        t == "i8"@ || t == "i16"@ || t == "i32"@ || t == "i64"@ ==> scalar_c_type(t) is Some,
{
    reveal_strlit("i8");
    reveal_strlit("i16");
    reveal_strlit("i32");
    reveal_strlit("i64");
    reveal_strlit("float");
    reveal_strlit("double");
    reveal_strlit("int8_t");
    reveal_strlit("int16_t");
    reveal_strlit("int32_t");
    reveal_strlit("int64_t");
    reveal_strlit("int");
    reveal_strlit("_t");
    if t == "i8"@ {
        assert("int"@ + t.drop_first() + "_t"@ =~= "int8_t"@);
    } else if t == "i16"@ {
        assert("int"@ + t.drop_first() + "_t"@ =~= "int16_t"@);
    } else if t == "i32"@ {
        assert("int"@ + t.drop_first() + "_t"@ =~= "int32_t"@);
    } else if t == "i64"@ {
        assert("int"@ + t.drop_first() + "_t"@ =~= "int64_t"@);
    }
}

/// A field of LLVM integer type `iN`, alone or as the element of an array,
/// is declared with the C integer of the same width, `intN_t`.
pub proof fn lemma_field_integer_width(llvm_type: Seq<char>, byte_size: u64)
    ensures
        ({
            let t = trim_spec(llvm_type);
            t.len() > 0 && t[0] == 'i' && scalar_c_type(t) is Some ==> ctype_of(llvm_type, byte_size)
                == CTypeModel::Scalar("int"@ + t.drop_first() + "_t"@)
        }),
        ({
            let t = trim_spec(llvm_type);
            match array_parts(t) {
                Some((n, e)) => e.len() > 0 && e[0] == 'i' && scalar_c_type(e) is Some ==> ctype_of(
                    llvm_type,
                    byte_size,
                ) == CTypeModel::Array("int"@ + e.drop_first() + "_t"@, n),
                None => true,
            }
        }),
{
    let t = trim_spec(llvm_type);
    lemma_integer_c_type_keeps_width(t);
    reveal_strlit("ptr");
    match array_parts(t) {
        Some((n, e)) => {
            lemma_integer_c_type_keeps_width(e);
            if starts_with_char(t, '[') {
                reveal_strlit("i8");
                reveal_strlit("i16");
                reveal_strlit("i32");
                reveal_strlit("i64");
                reveal_strlit("float");
                reveal_strlit("double");
                assert(scalar_c_type(t) is None);
                assert(t != "ptr"@);
            }
        },
        None => {},
    }
}

/// The element count and element type of an array type `[N x T]`.
pub open spec fn array_parts(t: Seq<char>) -> Option<(nat, Seq<char>)> {
    if starts_with_char(t, '[') && t.len() > 0 && t.last() == ']' && t.len() >= 2 {
        let inner = t.subrange(1, t.len() - 1);
        match crate::text::find_spec(inner, " x "@) {
            Some(x) => match parse_unsigned_spec(trim_spec(inner.take(x)), usize::MAX as nat) {
                Some(c) => Some((c, trim_spec(inner.skip(x + 3)))),
                None => None,
            },
            None => None,
        }
    } else {
        None
    }
}

/// Index of the first space or `=` in `s`, or its length.
pub open spec fn name_end(s: Seq<char>) -> nat
    decreases s.len(),
{
    if s.len() == 0 {
        0
    } else if s[0] == ' ' || s[0] == '=' {
        0
    } else {
        1 + name_end(s.drop_first())
    }
}

/// The struct a type `%Name` (or `%Name = type {...}`) names, without the
/// `struct.`/`class.` prefixes.
pub open spec fn nested_struct_name(t: Seq<char>) -> Option<Seq<char>> {
    if starts_with_char(t, '%') {
        let raw = t.subrange(1, name_end(t) as int);
        let name = strip_prefixes(strip_prefixes(raw, "struct."@), "class."@);
        if name.len() > 0 {
            Some(name)
        } else {
            None
        }
    } else {
        None
    }
}

/// The C type of an LLVM type of `byte_size` bytes: a scalar, `ptr` as raw
/// bytes, an array (of `uint8_t` when the element type is not a scalar), an
/// embedded struct, or else raw bytes.
pub open spec fn ctype_of(llvm_type: Seq<char>, byte_size: u64) -> CTypeModel {
    let t = trim_spec(llvm_type);
    match scalar_c_type(t) {
        Some(c) => CTypeModel::Scalar(c),
        None => if t == "ptr"@ {
            CTypeModel::Opaque(byte_size)
        } else {
            match array_parts(t) {
                Some((n, e)) => CTypeModel::Array(
                    match scalar_c_type(e) {
                        Some(c) => c,
                        None => "uint8_t"@,
                    },
                    n,
                ),
                None => match nested_struct_name(t) {
                    Some(n) => CTypeModel::Nested(n),
                    None => CTypeModel::Opaque(byte_size),
                },
            }
        },
    }
}

fn scalar_c_type_exec(t: &[char]) -> (r: Option<String>)
    ensures
        crate::ddg_graph::opt_chars(r) == scalar_c_type(t@),
{
    if eq_str(t, "i8") {
        Some(crate::ddg_graph::text_of("int8_t"))
    } else if eq_str(t, "i16") {
        Some(crate::ddg_graph::text_of("int16_t"))
    } else if eq_str(t, "i32") {
        Some(crate::ddg_graph::text_of("int32_t"))
    } else if eq_str(t, "i64") {
        Some(crate::ddg_graph::text_of("int64_t"))
    } else if eq_str(t, "float") {
        Some(crate::ddg_graph::text_of("float"))
    } else if eq_str(t, "double") {
        Some(crate::ddg_graph::text_of("double"))
    } else {
        None
    }
}

pub(crate) fn array_parts_exec(t: &[char]) -> (r: Option<(usize, Vec<char>)>)
    ensures
        match r {
            Some((n, e)) => array_parts(t@) == Some((n as nat, e@)),
            None => array_parts(t@) is None,
        },
{
    if !(starts_with_char_exec(t, '[') && t.len() >= 2 && t[t.len() - 1] == ']') {
        return None;
    }
    let inner = slice_of(t, 1, t.len() - 1);
    let sep = chars_of(" x ");
    let x = match crate::text::find(inner.as_slice(), sep.as_slice()) {
        Some(x) => x,
        None => return None,
    };
    proof {
        crate::text::lemma_find_from(inner@, " x "@, 0);
        reveal_strlit(" x ");
    }
    let n = inner.len();
    assert(x + 3 <= n);
    let head = slice_of(inner.as_slice(), 0, x);
    let count = match parse_usize(trim(head.as_slice()).as_slice()) {
        Some(c) => c,
        None => return None,
    };
    let tail = slice_of(inner.as_slice(), x + 3, n);
    Some((count, trim(tail.as_slice())))
}

fn nested_struct_name_exec(t: &[char]) -> (r: Option<Vec<char>>)
    ensures
        match r {
            Some(v) => nested_struct_name(t@) == Some(v@),
            None => nested_struct_name(t@) is None,
        },
{
    if !starts_with_char_exec(t, '%') {
        return None;
    }
    let mut e: usize = 0;
    assert(t@.skip(0) == t@);
    while e < t.len() && !(t[e] == ' ' || t[e] == '=')
        invariant
            e <= t@.len(),
            name_end(t@) == e + name_end(t@.skip(e as int)),
        decreases t@.len() - e,
    {
        assert(t@.skip(e as int).drop_first() == t@.skip(e + 1));
        e += 1;
    }
    proof {
        if e < t@.len() {
            assert(t@.skip(e as int)[0] == t@[e as int]);
        }
    }
    assert(e >= 1);
    let raw = slice_of(t, 1, e);
    let a = trim_start_matches(raw.as_slice(), "struct.");
    let name = trim_start_matches(a.as_slice(), "class.");
    if name.len() > 0 {
        Some(name)
    } else {
        None
    }
}

/// The C type for a field of type `llvm_type` and `byte_size` bytes.
pub fn parse_llvm_type(llvm_type: &str, byte_size: u64) -> (r: CType)
    ensures
        r@ == ctype_of(llvm_type@, byte_size),
{
    let t = trim(chars_of(llvm_type).as_slice());
    match scalar_c_type_exec(t.as_slice()) {
        Some(c) => return CType::Scalar { c_type: c },
        None => {},
    }
    if eq_str(t.as_slice(), "ptr") {
        return CType::Opaque { byte_size };
    }
    match array_parts_exec(t.as_slice()) {
        Some((n, e)) => {
            let ec = match scalar_c_type_exec(e.as_slice()) {
                Some(c) => c,
                None => crate::ddg_graph::text_of("uint8_t"),
            };
            return CType::Array { element_c_type: ec, count: n };
        },
        None => {},
    }
    match nested_struct_name_exec(t.as_slice()) {
        Some(n) => CType::Nested { struct_name: string_from(n.as_slice()) },
        None => CType::Opaque { byte_size },
    }
}

// ---------------------------------------------------------------------------
// Field classification
// ---------------------------------------------------------------------------

/// What the harness lets the fuzzer do with a field.
#[derive(Debug, Clone, Copy, PartialEq, Eq, Structural)]
pub enum FieldKind {
    /// An input the fuzzer writes.
    Input,
    /// Persistent state.
    State,
    /// The compiler's vtable pointer, never touched.
    Vtable,
}

/// A field named `__vtable` is the vtable; an embedded struct or a pointer
/// is state; every other scalar or array field is an input.
pub open spec fn field_kind(f: FieldModel) -> FieldKind {
    let name = match f.name {
        Some(n) => n,
        None => Seq::empty(),
    };
    if name == "__vtable"@ {
        FieldKind::Vtable
    } else if starts_with_char(f.llvm_type, '%') {
        FieldKind::State
    } else if trim_spec(f.llvm_type) == "ptr"@ {
        FieldKind::State
    } else {
        FieldKind::Input
    }
}

/// Classifies a field as input, state or vtable.
pub fn classify_field(field: &FieldLayout) -> (k: FieldKind)
    ensures
        k == field_kind(field@),
{
    let name = match &field.name {
        Some(n) => chars_of(n.as_str()),
        None => Vec::new(),
    };
    if eq_str(name.as_slice(), "__vtable") {
        return FieldKind::Vtable;
    }
    let t = chars_of(field.llvm_type.as_str());
    if starts_with_char_exec(t.as_slice(), '%') {
        return FieldKind::State;
    }
    if eq_str(trim(t.as_slice()).as_slice(), "ptr") {
        return FieldKind::State;
    }
    FieldKind::Input
}

// ---------------------------------------------------------------------------
// Sizes the harness reports
// ---------------------------------------------------------------------------

/// The bytes of the fields that are not the vtable: the state size.
pub open spec fn state_bytes(fs: Seq<FieldModel>) -> nat
    decreases fs.len(),
{
    if fs.len() == 0 {
        0
    } else {
        state_bytes(fs.drop_last()) + if field_kind(fs.last()) != FieldKind::Vtable {
            fs.last().byte_size as nat
        } else {
            0
        }
    }
}

/// The bytes of the input fields: the input size.
pub open spec fn input_bytes(fs: Seq<FieldModel>) -> nat
    decreases fs.len(),
{
    if fs.len() == 0 {
        0
    } else {
        input_bytes(fs.drop_last()) + if field_kind(fs.last()) == FieldKind::Input {
            fs.last().byte_size as nat
        } else {
            0
        }
    }
}

proof fn lemma_input_within_state(fs: Seq<FieldModel>)
    ensures
        input_bytes(fs) <= state_bytes(fs),
    decreases fs.len(),
{
    if fs.len() > 0 {
        lemma_input_within_state(fs.drop_last());
    }
}

proof fn lemma_sums_prefix(fs: Seq<FieldModel>, i: int)
    requires
        0 <= i <= fs.len(),
    ensures
        state_bytes(fs.take(i)) <= state_bytes(fs),
        input_bytes(fs.take(i)) <= input_bytes(fs),
    decreases fs.len() - i,
{
    if i < fs.len() {
        lemma_sums_prefix(fs, i + 1);
        assert(fs.take(i + 1).drop_last() == fs.take(i));
    } else {
        assert(fs.take(i) == fs);
    }
}

/// The sizes the harness adds up fit in 64 bits.
pub open spec fn sizes_fit(l: LayoutModel) -> bool {
    state_bytes(l.fields) <= u64::MAX
}

// ---------------------------------------------------------------------------
// The generated text, piece by piece
// ---------------------------------------------------------------------------

/// Whether a layout of struct `name` is among `all`.
pub open spec fn has_layout(all: Seq<LayoutModel>, name: Seq<char>) -> bool {
    exists|i: int| 0 <= i < all.len() && #[trigger] all[i].struct_name == name
}

/// The first layout of struct `name` among `all`.
pub open spec fn first_layout(all: Seq<LayoutModel>, name: Seq<char>) -> Option<LayoutModel>
    decreases all.len(),
{
    if all.len() == 0 {
        None
    } else if all[0].struct_name == name {
        Some(all[0])
    } else {
        first_layout(all.drop_first(), name)
    }
}

/// The file header: provenance comments and the standard includes.
pub open spec fn header_text(program_name: Seq<char>) -> Seq<char> {
    "/* Generated by prism-harness for program: "@ + program_name + " */\n"@ + "/* Do not edit — regenerate with: prism-harness <layout.json> "@
        + program_name + " <out.c> */\n"@ + "\n#include <stdint.h>\n#include <stddef.h>\n#include <string.h>\n#include <stdlib.h>\n\n"@
}

/// A field's member name: its source name, or `_pad<index>`; both the
/// typedef and the input copy of `prism_run` use it.
pub open spec fn member_name(f: FieldModel) -> Seq<char> {
    match f.name {
        Some(n) => n,
        None => "_pad"@ + decimal(f.index as nat),
    }
}

/// A member declaration of scalar type `c`.
pub open spec fn scalar_member(c: Seq<char>, name: Seq<char>, off: u64, size: u64) -> Seq<char> {
    "    "@ + c + " "@ + name + ";  /* offset="@ + decimal(off as nat) + " size="@ + decimal(
        size as nat,
    ) + " */\n"@
}

/// A member declaration of an array of `n` elements of type `e`.
pub open spec fn array_member(e: Seq<char>, n: nat, name: Seq<char>, off: u64, size: u64) -> Seq<
    char,
> {
    "    "@ + e + " "@ + name + "["@ + decimal(n) + "];  /* offset="@ + decimal(off as nat)
        + " size="@ + decimal(size as nat) + " */\n"@
}

/// A member declaration of `b` raw bytes.
pub open spec fn opaque_member(b: u64, name: Seq<char>, off: u64) -> Seq<char> {
    "    uint8_t "@ + name + "["@ + decimal(b as nat) + "];  /* offset="@ + decimal(off as nat)
        + " opaque */\n"@
}

/// A member declaration of embedded struct `s`.
pub open spec fn nested_member(s: Seq<char>, name: Seq<char>, off: u64, size: u64) -> Seq<char> {
    "    "@ + s + "_t "@ + name + ";  /* offset="@ + decimal(off as nat) + " size="@ + decimal(
        size as nat,
    ) + " nested */\n"@
}

/// A member declaration for an embedded struct without a layout.
pub open spec fn opaque_nested_member(name: Seq<char>, off: u64, size: u64) -> Seq<char> {
    "    uint8_t "@ + name + "["@ + decimal(size as nat) + "];  /* offset="@ + decimal(off as nat)
        + " size="@ + decimal(size as nat) + " opaque nested */\n"@
}

/// A field's member declaration in the struct typedef.
pub open spec fn typedef_line(f: FieldModel, all: Seq<LayoutModel>) -> Seq<char> {
    let name = member_name(f);
    match ctype_of(f.llvm_type, f.byte_size) {
        CTypeModel::Scalar(c) => scalar_member(c, name, f.byte_offset, f.byte_size),
        CTypeModel::Array(e, n) => array_member(e, n, name, f.byte_offset, f.byte_size),
        CTypeModel::Opaque(b) => opaque_member(b, name, f.byte_offset),
        CTypeModel::Nested(s) => if has_layout(all, s) {
            nested_member(s, name, f.byte_offset, f.byte_size)
        } else {
            opaque_nested_member(name, f.byte_offset, f.byte_size)
        },
    }
}

/// The C typedef of a layout's struct, `<Name>_t`.
pub open spec fn struct_typedef(l: LayoutModel, all: Seq<LayoutModel>) -> Seq<char> {
    "typedef struct {\n"@ + join_all(l.fields, |f: FieldModel| typedef_line(f, all)) + "} "@
        + l.struct_name + "_t;\n\n"@
}

/// The struct a field embeds, when its layout is among `all`.
pub open spec fn nested_layout_name(f: FieldModel, all: Seq<LayoutModel>) -> Option<Seq<char>> {
    match ctype_of(f.llvm_type, f.byte_size) {
        CTypeModel::Nested(n) => if has_layout(all, n) {
            Some(n)
        } else {
            None
        },
        _ => None,
    }
}

/// The structs with layouts that a layout embeds directly, in field order.
pub open spec fn embedded_names(l: LayoutModel, all: Seq<LayoutModel>) -> Seq<Seq<char>> {
    collect_some(l.fields, |f: FieldModel| nested_layout_name(f, all))
}

/// `acc` extended by struct `name` and, before it, every struct it embeds at
/// any depth, each once (depth-first, in field order); `fuel` bounds the
/// depth.
pub open spec fn visit_struct(
    all: Seq<LayoutModel>,
    name: Seq<char>,
    fuel: nat,
    acc: Seq<Seq<char>>,
) -> Seq<Seq<char>>
    decreases fuel, 0nat,
{
    if acc.contains(name) || fuel == 0 {
        acc
    } else {
        match first_layout(all, name) {
            None => acc,
            Some(l) => {
                let a = visit_structs(all, embedded_names(l, all), (fuel - 1) as nat, acc);
                if a.contains(name) {
                    a
                } else {
                    a.push(name)
                }
            },
        }
    }
}

/// `visit_struct` applied to each of `names` in turn.
pub open spec fn visit_structs(
    all: Seq<LayoutModel>,
    names: Seq<Seq<char>>,
    fuel: nat,
    acc: Seq<Seq<char>>,
) -> Seq<Seq<char>>
    decreases fuel, names.len() + 1,
{
    if names.len() == 0 {
        acc
    } else {
        visit_struct(all, names.last(), fuel, visit_structs(all, names.drop_last(), fuel, acc))
    }
}

/// The structs with layouts that `target` embeds at any depth, each once,
/// every one after those it embeds itself.
pub open spec fn needed_structs(target: LayoutModel, all: Seq<LayoutModel>) -> Seq<Seq<char>> {
    visit_structs(all, embedded_names(target, all), all.len(), seq![target.struct_name]).drop_first()
}

/// The structs with layouts that the layout of struct `n` embeds.
pub open spec fn embedded_of(all: Seq<LayoutModel>, n: Seq<char>) -> Seq<Seq<char>> {
    match first_layout(all, n) {
        Some(l) => embedded_names(l, all),
        None => Seq::empty(),
    }
}

/// Every struct of `acc` after the first comes after the structs it embeds.
pub open spec fn children_first(all: Seq<LayoutModel>, acc: Seq<Seq<char>>) -> bool {
    forall|p: int, e: Seq<char>|
        1 <= p < acc.len() && #[trigger] embedded_of(all, acc[p]).contains(e) ==> acc.take(p).contains(e)
}

/// `rank` falls from each struct to every struct it embeds: the nesting has
/// no cycle.
pub open spec fn nesting_ranked(all: Seq<LayoutModel>, rank: spec_fn(Seq<char>) -> nat) -> bool {
    forall|n: Seq<char>, e: Seq<char>| #[trigger] embedded_of(all, n).contains(e) ==> rank(e) < rank(n)
}

proof fn lemma_embedded_have_layouts(fs: Seq<FieldModel>, all: Seq<LayoutModel>, e: Seq<char>)
    requires
        collect_some(fs, |f: FieldModel| nested_layout_name(f, all)).contains(e),
    ensures
        has_layout(all, e),
    decreases fs.len(),
{
    let g = |f: FieldModel| nested_layout_name(f, all);
    if fs.len() > 0 {
        let c = collect_some(fs.drop_last(), g);
        if c.contains(e) {
            lemma_embedded_have_layouts(fs.drop_last(), all, e);
        } else {
            let k = choose|k: int| 0 <= k < collect_some(fs, g).len() && collect_some(fs, g)[k] == e;
            assert(k >= c.len());
        }
    }
}

proof fn lemma_first_layout_some(all: Seq<LayoutModel>, n: Seq<char>)
    requires
        has_layout(all, n),
    ensures
        first_layout(all, n) is Some,
    decreases all.len(),
{
    if all[0].struct_name != n {
        let i = choose|i: int| 0 <= i < all.len() && #[trigger] all[i].struct_name == n;
        assert(all.drop_first()[i - 1].struct_name == n);
        lemma_first_layout_some(all.drop_first(), n);
    }
}

proof fn lemma_visit_struct_ordered(
    all: Seq<LayoutModel>,
    rank: spec_fn(Seq<char>) -> nat,
    name: Seq<char>,
    fuel: nat,
    acc: Seq<Seq<char>>,
)
    requires
        nesting_ranked(all, rank),
        children_first(all, acc),
        has_layout(all, name),
        rank(name) < fuel,
    ensures
        visit_struct(all, name, fuel, acc).len() >= acc.len(),
        visit_struct(all, name, fuel, acc).take(acc.len() as int) == acc,
        children_first(all, visit_struct(all, name, fuel, acc)),
        visit_struct(all, name, fuel, acc).contains(name),
    decreases fuel, 0nat,
{
    assert(acc.take(acc.len() as int) == acc);
    if !acc.contains(name) {
        lemma_first_layout_some(all, name);
        let l = first_layout(all, name).unwrap();
        let ch = embedded_names(l, all);
        assert(embedded_of(all, name) == ch);
        assert forall|e: Seq<char>| ch.contains(e) implies has_layout(all, e) && rank(e) < (fuel - 1) as nat by {
            lemma_embedded_have_layouts(l.fields, all, e);
            assert(embedded_of(all, name).contains(e));
        }
        lemma_visit_structs_ordered(all, rank, ch, (fuel - 1) as nat, acc);
        let a = visit_structs(all, ch, (fuel - 1) as nat, acc);
        if !a.contains(name) {
            let r = a.push(name);
            assert(r.take(acc.len() as int) == acc) by {
                assert(r.take(acc.len() as int) =~= a.take(acc.len() as int));
            }
            assert forall|p: int, e: Seq<char>|
                1 <= p < r.len() && #[trigger] embedded_of(all, r[p]).contains(e) implies r.take(p).contains(e) by {
                if p < a.len() {
                    assert(r[p] == a[p]);
                    assert(r.take(p) =~= a.take(p));
                } else {
                    assert(r[p] == name);
                    assert(r.take(p) =~= a);
                }
            }
            assert(r[a.len() as int] == name);
        }
    }
}

proof fn lemma_visit_structs_ordered(
    all: Seq<LayoutModel>,
    rank: spec_fn(Seq<char>) -> nat,
    names: Seq<Seq<char>>,
    fuel: nat,
    acc: Seq<Seq<char>>,
)
    requires
        nesting_ranked(all, rank),
        children_first(all, acc),
        forall|e: Seq<char>| #[trigger] names.contains(e) ==> has_layout(all, e) && rank(e) < fuel,
    ensures
        visit_structs(all, names, fuel, acc).len() >= acc.len(),
        visit_structs(all, names, fuel, acc).take(acc.len() as int) == acc,
        children_first(all, visit_structs(all, names, fuel, acc)),
        forall|e: Seq<char>| #[trigger] names.contains(e) ==> visit_structs(all, names, fuel, acc).contains(e),
    decreases fuel, names.len() + 1,
{
    assert(acc.take(acc.len() as int) == acc);
    if names.len() > 0 {
        let init = names.drop_last();
        assert forall|e: Seq<char>| #[trigger] init.contains(e) implies has_layout(all, e) && rank(e) < fuel by {
            let k = choose|k: int| 0 <= k < init.len() && init[k] == e;
            assert(names[k] == e);
            assert(names.contains(e));
        }
        lemma_visit_structs_ordered(all, rank, init, fuel, acc);
        let a = visit_structs(all, init, fuel, acc);
        assert(names.contains(names.last()));
        lemma_visit_struct_ordered(all, rank, names.last(), fuel, a);
        let r = visit_struct(all, names.last(), fuel, a);
        assert(r.take(acc.len() as int) =~= r.take(a.len() as int).take(acc.len() as int));
        assert(a.take(acc.len() as int) == acc);
        assert forall|e: Seq<char>| #[trigger] names.contains(e) implies r.contains(e) by {
            if e != names.last() {
                let k = choose|k: int| 0 <= k < names.len() && names[k] == e;
                assert(init[k] == e);
                assert(init.contains(e));
                let q = choose|q: int| 0 <= q < a.len() && a[q] == e;
                assert(r.take(a.len() as int)[q] == e);
                assert(r[q] == e);
            }
        }
    }
}

/// When the nesting of the layouts has no cycle (witnessed by a rank that
/// falls from each struct to those it embeds, below the number of layouts
/// for the structs the target embeds), every struct the target embeds gets
/// a typedef, and each typedef comes after those of the structs it embeds
/// (the target's own typedef comes last).
pub proof fn lemma_needed_structs_ordered(
    target: LayoutModel,
    all: Seq<LayoutModel>,
    rank: spec_fn(Seq<char>) -> nat,
)
    requires
        nesting_ranked(all, rank),
        forall|e: Seq<char>| #[trigger] embedded_names(target, all).contains(e) ==> rank(e) < all.len(),
    ensures
        forall|e: Seq<char>|
            #[trigger] embedded_names(target, all).contains(e) && e != target.struct_name
                ==> needed_structs(target, all).contains(e),
        forall|p: int, e: Seq<char>|
            0 <= p < needed_structs(target, all).len() && #[trigger] embedded_of(
                all,
                needed_structs(target, all)[p],
            ).contains(e) && e != target.struct_name ==> needed_structs(target, all).take(p).contains(e),
{
    let acc0 = seq![target.struct_name];
    let ch = embedded_names(target, all);
    assert forall|e: Seq<char>| #[trigger] ch.contains(e) implies has_layout(all, e) && rank(e) < all.len() by {
        lemma_embedded_have_layouts(target.fields, all, e);
    }
    lemma_visit_structs_ordered(all, rank, ch, all.len(), acc0);
    let r = visit_structs(all, ch, all.len(), acc0);
    let l = needed_structs(target, all);
    assert(l == r.drop_first());
    assert(r[0] == target.struct_name) by {
        assert(r.take(1)[0] == acc0[0]);
    }
    assert forall|e: Seq<char>| #[trigger] ch.contains(e) && e != target.struct_name implies l.contains(e) by {
        let q = choose|q: int| 0 <= q < r.len() && r[q] == e;
        assert(q >= 1);
        assert(l[q - 1] == e);
    }
    assert forall|p: int, e: Seq<char>|
        0 <= p < l.len() && #[trigger] embedded_of(all, l[p]).contains(e) && e != target.struct_name
            implies l.take(p).contains(e) by {
        assert(r[p + 1] == l[p]);
        let rp = r.take(p + 1);
        assert(rp.contains(e));
        let q = choose|q: int| 0 <= q < rp.len() && rp[q] == e;
        assert(rp[q] == r[q]);
        assert(r[q] == e);
        assert(q >= 1);
        assert(l.take(p)[q - 1] == e);
    }
}

/// The typedefs of the embedded structs (each after the ones it uses), then
/// of the target struct.
pub open spec fn forward_decls_text(all: Seq<LayoutModel>, target: LayoutModel) -> Seq<char> {
    join_all(
        needed_structs(target, all),
        |n: Seq<char>|
            match first_layout(all, n) {
                Some(l) => struct_typedef(l, all),
                None => Seq::empty(),
            },
    ) + struct_typedef(target, all)
}

/// A field's entry in the field metadata table.
pub open spec fn meta_line(f: FieldModel) -> Seq<char> {
    "    { \""@ + match f.name {
        Some(n) => n,
        None => "?"@,
    } + "\", "@ + decimal(f.byte_offset as nat) + ", "@ + decimal(f.byte_size as nat) + ", "@ + if field_kind(
        f,
    ) == FieldKind::Input {
        "1"@
    } else {
        "0"@
    } + " },\n"@
}

/// The field metadata table with the field count and the state size.
pub open spec fn field_meta_table_text(l: LayoutModel) -> Seq<char> {
    "/* Field metadata */\ntypedef struct {\n    const char *name;\n    size_t offset;\n    size_t size;\n    int is_input;  /* 1=VAR_INPUT, 0=VAR/internal */\n} PrismFieldMeta;\n\nstatic const PrismFieldMeta PRISM_FIELDS[] = {\n"@ + join_all(l.fields, |f: FieldModel| meta_line(f)) + "};\n"@
        + "static const uint32_t PRISM_FIELD_COUNT = "@ + decimal(l.fields.len()) + ";\n\n"@
        + "static const size_t PRISM_STATE_SIZE = "@ + decimal(state_bytes(l.fields)) + ";\n\n"@
}

/// Allocation, reset and release of an instance, and the program's entry
/// point declaration.
pub open spec fn lifecycle_text(l: LayoutModel) -> Seq<char> {
    let total = decimal(l.total_bytes as nat);
    "/* ── Lifecycle ─────────────────────────────────────── */\n\n"@ + "void *prism_alloc(void) {\n    void *p = calloc(1, "@ + total
        + ");\n    return p;\n}\n\n"@ + "void prism_reset(void *instance) {\n    memset(instance, 0, "@
        + total + ");\n}\n\n"@ + "void prism_free(void *instance) {\n    free(instance);\n}\n\n"@
        + "extern void "@ + l.struct_name + "("@ + l.struct_name + "_t *instance);\n\n"@
}

/// The code that copies one input field from the testcase bytes into the
/// member the typedef declares for it; for an unnamed field that is
/// `_pad<index>` (never a placeholder name that is no member), so the
/// generated harness compiles.
pub open spec fn run_input_block(f: FieldModel) -> Seq<char> {
    if field_kind(f) == FieldKind::Input {
        let size = decimal(f.byte_size as nat);
        "    if (cursor + "@ + size + " <= len) {\n"@ + "        memcpy(&s->"@ + member_name(f)
            + ", data + cursor, "@ + size + ");\n"@ + "    }\n"@ + "    cursor += "@ + size + ";\n"@
    } else {
        Seq::empty()
    }
}

/// `prism_run` (inputs in field order, then one cycle), `prism_step` and
/// `prism_input_size`.
pub open spec fn execution_text(l: LayoutModel, program_name: Seq<char>) -> Seq<char> {
    let s = l.struct_name;
    run_fn_text(l, program_name) + "void prism_step(void *instance) {\n"@ + ("    "@ + s
        + "_t *s = ("@ + s + "_t *)instance;\n"@) + "    "@ + program_name + "(s);\n"@ + "}\n\n"@
        + "size_t prism_input_size(void) { return "@ + decimal(input_bytes(l.fields)) + "; }\n\n"@
}

/// The abort oracle: a program that declares the external function
/// `prism_bug_abort_if` calls it at an injected bug condition, and a
/// non-zero argument traps, which the fuzzers record as a crash.
pub open spec fn abort_oracle_text() -> Seq<char> {
    "/* ── Abort oracle ───────────────────────────────────── */\n\nint32_t prism_bug_abort_if(int32_t should_abort) {\n    if (should_abort != 0) {\n        __builtin_trap();\n    }\n    return 0;\n}\n\n"@
}

/// Whether the layout has a field named `__vtable`.
pub open spec fn has_vtable(l: LayoutModel) -> bool {
    exists|i: int| 0 <= i < l.fields.len() && #[trigger] l.fields[i].name == Some("__vtable"@)
}

/// State size, snapshot and restore (keeping the vtable pointer when there
/// is one).
pub open spec fn state_access_text(l: LayoutModel) -> Seq<char> {
    let total = decimal(l.total_bytes as nat);
    "/* ── State access ───────────────────────────────────── */\n\n"@ + "size_t prism_state_size(void) { return PRISM_STATE_SIZE; }\n\n"@
        + "void prism_get_state(const void *instance, uint8_t *out) {\n    memcpy(out, instance, "@
        + total + ");\n}\n\n"@
        + "void prism_set_state(void *instance, const uint8_t *state, size_t len) {\n"@
        + "    if (len > "@ + total + ") len = "@ + total + ";\n"@ + if has_vtable(l) {
        "    /* Preserve vtable pointer at offset 0 */\n    uint8_t *dst = (uint8_t *)instance;\n    if (len > 8) {\n        memcpy(dst + 8, state + 8, len - 8);\n    }\n"@
    } else {
        "    memcpy(instance, state, len);\n"@
    } + "}\n\n"@
}

/// Reading and writing single fields through the metadata table.
pub open spec fn field_access_text() -> Seq<char> {
    "/* ── Field access ───────────────────────────────────── */\n\nsize_t prism_get_field(const void *instance, uint32_t idx, uint8_t *out) {\n    if (idx >= PRISM_FIELD_COUNT) return 0;\n    const PrismFieldMeta *f = &PRISM_FIELDS[idx];\n    memcpy(out, (const uint8_t *)instance + f->offset, f->size);\n    return f->size;\n}\n\nint prism_set_field(void *instance, uint32_t idx, const uint8_t *data, size_t len) {\n    if (idx >= PRISM_FIELD_COUNT) return 0;\n    const PrismFieldMeta *f = &PRISM_FIELDS[idx];\n    if (len != f->size) return 0;\n    /* Never allow writing to vtable */\n    if (f->offset == 0 && f->size == 8 && !f->is_input) return 0;\n    memcpy((uint8_t *)instance + f->offset, data, f->size);\n    return 1;\n}\n\n"@
}

/// Struct size, field count, program name and per-field queries.
pub open spec fn metadata_text(l: LayoutModel, program_name: Seq<char>) -> Seq<char> {
    "/* ── Metadata ───────────────────────────────────────── */\n\n"@ + "size_t   prism_struct_size(void)  { return "@ + decimal(
        l.total_bytes as nat,
    ) + "; }\n"@ + "uint32_t prism_field_count(void)  { return PRISM_FIELD_COUNT; }\n"@
        + "const char *prism_program_name(void) { return \""@ + program_name + "\"; }\n\n"@
        + "const char *prism_field_name(uint32_t idx) {\n    if (idx >= PRISM_FIELD_COUNT) return 0;\n    return PRISM_FIELDS[idx].name;\n}\n\nsize_t prism_field_offset(uint32_t idx) {\n    if (idx >= PRISM_FIELD_COUNT) return 0;\n    return PRISM_FIELDS[idx].offset;\n}\n\nsize_t prism_field_size(uint32_t idx) {\n    if (idx >= PRISM_FIELD_COUNT) return 0;\n    return PRISM_FIELDS[idx].size;\n}\n\nint prism_field_is_input(uint32_t idx) {\n    if (idx >= PRISM_FIELD_COUNT) return 0;\n    return PRISM_FIELDS[idx].is_input;\n}\n"@
}

/// The whole harness for the target layout.
pub open spec fn harness_text(all: Seq<LayoutModel>, l: LayoutModel, program_name: Seq<char>) -> Seq<
    char,
> {
    header_text(program_name) + forward_decls_text(all, l) + field_meta_table_text(l)
        + lifecycle_text(l) + execution_text(l, program_name) + abort_oracle_text()
        + state_access_text(l)
        + field_access_text() + metadata_text(l, program_name)
}

/// The message when the program has no layout.
pub open spec fn missing_program_message(program_name: Seq<char>) -> Seq<char> {
    "Program '"@ + program_name + "' not found in layout JSON"@
}


// ---------------------------------------------------------------------------
// Emitting the text
// ---------------------------------------------------------------------------

fn push_opt_name(out: &mut Vec<char>, name: &Option<String>, missing: &str)
    ensures
        final(out)@ == old(out)@ + match crate::ddg_graph::opt_chars(*name) {
            Some(n) => n,
            None => missing@,
        },
{
    match name {
        Some(n) => push_str(out, n.as_str()),
        None => push_str(out, missing),
    }
}

fn find_layout(all: &Vec<ProgramLayout>, name: &[char]) -> (r: Option<usize>)
    ensures
        match r {
            Some(k) => k < all@.len() && first_layout(layouts_view(all@), name@) == Some(
                all@[k as int]@,
            ),
            None => first_layout(layouts_view(all@), name@) is None,
        },
        r is Some <==> has_layout(layouts_view(all@), name@),
{
    let ghost av = layouts_view(all@);
    let mut k: usize = 0;
    assert(av.skip(0) == av);
    while k < all.len()
        invariant
            k <= all@.len(),
            av == layouts_view(all@),
            first_layout(av, name@) == first_layout(av.skip(k as int), name@),
            forall|j: int| 0 <= j < k ==> #[trigger] av[j].struct_name != name@,
        decreases all@.len() - k,
    {
        assert(av.skip(k as int)[0] == av[k as int]);
        assert(av.skip(k as int).drop_first() == av.skip(k + 1));
        let nk = chars_of(all[k].struct_name.as_str());
        if crate::text::chars_eq(nk.as_slice(), name) {
            assert(av[k as int].struct_name == name@);
            return Some(k);
        }
        k += 1;
    }
    assert(!has_layout(av, name@));
    assert(av.skip(k as int).len() == 0);
    None
}

fn emit_header(out: &mut Vec<char>, program_name: &str)
    ensures
        final(out)@ == old(out)@ + header_text(program_name@),
{
    push_str(out, "/* Generated by prism-harness for program: ");
    push_str(out, program_name);
    push_str(out, " */\n");
    push_str(out, "/* Do not edit — regenerate with: prism-harness <layout.json> ");
    push_str(out, program_name);
    push_str(out, " <out.c> */\n");
    push_str(out, "\n#include <stdint.h>\n#include <stddef.h>\n#include <string.h>\n#include <stdlib.h>\n\n");
    assert(out@ =~= old(out)@ + header_text(program_name@));
}

fn push_scalar_member(out: &mut Vec<char>, c: &[char], name: &[char], off: u64, size: u64)
    ensures
        final(out)@ == old(out)@ + scalar_member(c@, name@, off, size),
{
    push_str(out, "    ");
    push_all(out, c);
    push_str(out, " ");
    push_all(out, name);
    push_str(out, ";  /* offset=");
    push_decimal(out, off);
    push_str(out, " size=");
    push_decimal(out, size);
    push_str(out, " */\n");
    assert(out@ =~= old(out)@ + scalar_member(c@, name@, off, size));
}

fn push_array_member(out: &mut Vec<char>, e: &[char], n: usize, name: &[char], off: u64, size: u64)
    ensures
        final(out)@ == old(out)@ + array_member(e@, n as nat, name@, off, size),
{
    push_str(out, "    ");
    push_all(out, e);
    push_str(out, " ");
    push_all(out, name);
    push_str(out, "[");
    push_decimal(out, n as u64);
    push_str(out, "];  /* offset=");
    push_decimal(out, off);
    push_str(out, " size=");
    push_decimal(out, size);
    push_str(out, " */\n");
    assert(out@ =~= old(out)@ + array_member(e@, n as nat, name@, off, size));
}

fn push_opaque_member(out: &mut Vec<char>, b: u64, name: &[char], off: u64)
    ensures
        final(out)@ == old(out)@ + opaque_member(b, name@, off),
{
    push_str(out, "    uint8_t ");
    push_all(out, name);
    push_str(out, "[");
    push_decimal(out, b);
    push_str(out, "];  /* offset=");
    push_decimal(out, off);
    push_str(out, " opaque */\n");
    assert(out@ =~= old(out)@ + opaque_member(b, name@, off));
}

fn push_nested_member(out: &mut Vec<char>, sn: &[char], name: &[char], off: u64, size: u64)
    ensures
        final(out)@ == old(out)@ + nested_member(sn@, name@, off, size),
{
    push_str(out, "    ");
    push_all(out, sn);
    push_str(out, "_t ");
    push_all(out, name);
    push_str(out, ";  /* offset=");
    push_decimal(out, off);
    push_str(out, " size=");
    push_decimal(out, size);
    push_str(out, " nested */\n");
    assert(out@ =~= old(out)@ + nested_member(sn@, name@, off, size));
}

fn push_opaque_nested_member(out: &mut Vec<char>, name: &[char], off: u64, size: u64)
    ensures
        final(out)@ == old(out)@ + opaque_nested_member(name@, off, size),
{
    push_str(out, "    uint8_t ");
    push_all(out, name);
    push_str(out, "[");
    push_decimal(out, size);
    push_str(out, "];  /* offset=");
    push_decimal(out, off);
    push_str(out, " size=");
    push_decimal(out, size);
    push_str(out, " opaque nested */\n");
    assert(out@ =~= old(out)@ + opaque_nested_member(name@, off, size));
}

fn push_member_name(out: &mut Vec<char>, f: &FieldLayout)
    ensures
        final(out)@ == old(out)@ + member_name(f@),
{
    match &f.name {
        Some(n) => push_str(out, n.as_str()),
        None => {
            push_str(out, "_pad");
            push_decimal(out, f.index as u64);
        },
    }
    assert(out@ =~= old(out)@ + member_name(f@));
}

fn push_typedef_line(out: &mut Vec<char>, f: &FieldLayout, all: &Vec<ProgramLayout>)
    ensures
        final(out)@ == old(out)@ + typedef_line(f@, layouts_view(all@)),
{
    let mut name: Vec<char> = Vec::new();
    push_member_name(&mut name, f);
    assert(name@ =~= member_name(f@));
    match parse_llvm_type(f.llvm_type.as_str(), f.byte_size) {
        CType::Scalar { c_type } => {
            push_scalar_member(out, chars_of(c_type.as_str()).as_slice(), name.as_slice(), f.byte_offset, f.byte_size);
        },
        CType::Array { element_c_type, count } => {
            push_array_member(out, chars_of(element_c_type.as_str()).as_slice(), count, name.as_slice(), f.byte_offset, f.byte_size);
        },
        CType::Opaque { byte_size } => {
            push_opaque_member(out, byte_size, name.as_slice(), f.byte_offset);
        },
        CType::Nested { struct_name } => {
            let sn = chars_of(struct_name.as_str());
            if find_layout(all, sn.as_slice()).is_some() {
                push_nested_member(out, sn.as_slice(), name.as_slice(), f.byte_offset, f.byte_size);
            } else {
                push_opaque_nested_member(out, name.as_slice(), f.byte_offset, f.byte_size);
            }
        },
    }
}

fn emit_struct_typedef(out: &mut Vec<char>, layout: &ProgramLayout, all_layouts: &Vec<ProgramLayout>)
    ensures
        final(out)@ == old(out)@ + struct_typedef(layout@, layouts_view(all_layouts@)),
{
    let ghost av = layouts_view(all_layouts@);
    let ghost fs = layout@.fields;
    let ghost f = |x: FieldModel| typedef_line(x, av);
    push_str(out, "typedef struct {\n");
    let ghost start = out@;
    let mut i: usize = 0;
    while i < layout.fields.len()
        invariant
            i <= layout.fields@.len(),
            fs == layout@.fields,
            av == layouts_view(all_layouts@),
            f == (|x: FieldModel| typedef_line(x, av)),
            out@ == start + join_all(fs.take(i as int), f),
        decreases layout.fields@.len() - i,
    {
        proof { lemma_join_all_step(fs, i as int, f); }
        push_typedef_line(out, &layout.fields[i], all_layouts);
        i += 1;
    }
    assert(fs.take(fs.len() as int) == fs);
    push_str(out, "} ");
    push_str(out, layout.struct_name.as_str());
    push_str(out, "_t;\n\n");
    assert(out@ =~= old(out)@ + struct_typedef(layout@, av));
}

fn nested_layout_name_exec(f: &FieldLayout, all: &Vec<ProgramLayout>) -> (r: Option<Vec<char>>)
    ensures
        match r {
            Some(v) => nested_layout_name(f@, layouts_view(all@)) == Some(v@),
            None => nested_layout_name(f@, layouts_view(all@)) is None,
        },
{
    match parse_llvm_type(f.llvm_type.as_str(), f.byte_size) {
        CType::Nested { struct_name } => {
            let sn = chars_of(struct_name.as_str());
            if find_layout(all, sn.as_slice()).is_some() {
                Some(sn)
            } else {
                None
            }
        },
        _ => None,
    }
}

fn contains_name(v: &Vec<Vec<char>>, name: &[char]) -> (b: bool)
    ensures
        b == v@.map_values(|x: Vec<char>| x@).contains(name@),
{
    let ghost vv = v@.map_values(|x: Vec<char>| x@);
    let mut i: usize = 0;
    while i < v.len()
        invariant
            i <= v@.len(),
            vv == v@.map_values(|x: Vec<char>| x@),
            forall|j: int| 0 <= j < i ==> #[trigger] vv[j] != name@,
        decreases v@.len() - i,
    {
        if crate::text::chars_eq(v[i].as_slice(), name) {
            assert(vv[i as int] == name@);
            return true;
        }
        i += 1;
    }
    false
}

pub open spec fn names_view(v: Seq<Vec<char>>) -> Seq<Seq<char>> {
    v.map_values(|x: Vec<char>| x@)
}

fn visit_struct_exec(all: &Vec<ProgramLayout>, name: &[char], fuel: usize, acc: &mut Vec<Vec<char>>)
    ensures
        names_view(final(acc)@) == visit_struct(
            layouts_view(all@),
            name@,
            fuel as nat,
            names_view(old(acc)@),
        ),
        final(acc)@.len() >= old(acc)@.len(),
    decreases fuel,
{
    let ghost av = layouts_view(all@);
    if contains_name(acc, name) || fuel == 0 {
        return;
    }
    let k = match find_layout(all, name) {
        Some(k) => k,
        None => return,
    };
    let l = &all[k];
    let ghost fs = l@.fields;
    let ghost g = |x: FieldModel| nested_layout_name(x, av);
    let ghost acc0 = names_view(acc@);
    let ghost len0 = acc@.len();
    let ghost f1 = (fuel - 1) as nat;
    assert(fs.take(0) =~= Seq::<FieldModel>::empty());
    let mut i: usize = 0;
    while i < l.fields.len()
        invariant
            i <= l.fields@.len(),
            fs == l@.fields,
            av == layouts_view(all@),
            0 < fuel,
            f1 == fuel - 1,
            acc@.len() >= len0,
            g == (|x: FieldModel| nested_layout_name(x, av)),
            names_view(acc@) == visit_structs(av, collect_some(fs.take(i as int), g), f1, acc0),
        decreases l.fields@.len() - i,
    {
        proof { lemma_collect_some_step(fs, i as int, g); }
        let ghost c0 = collect_some(fs.take(i as int), g);
        assert(fs[i as int] == l.fields@[i as int]@);
        match nested_layout_name_exec(&l.fields[i], all) {
            Some(n) => {
                assert(collect_some(fs.take(i + 1), g) == c0.push(n@));
                assert(c0.push(n@).drop_last() == c0);
                visit_struct_exec(all, n.as_slice(), fuel - 1, acc);
            },
            None => {
                assert(collect_some(fs.take(i + 1), g) =~= c0);
            },
        }
        i += 1;
    }
    assert(fs.take(fs.len() as int) == fs);
    assert(embedded_names(l@, av) == collect_some(fs, g));
    if !contains_name(acc, name) {
        let ghost before = acc@;
        acc.push(slice_of(name, 0, name.len()));
        assert(name@.subrange(0, name@.len() as int) == name@);
        assert(names_view(acc@) =~= names_view(before).push(name@));
    }
}

fn emit_forward_decls(out: &mut Vec<char>, all_layouts: &Vec<ProgramLayout>, target: &ProgramLayout)
    ensures
        final(out)@ == old(out)@ + forward_decls_text(layouts_view(all_layouts@), target@),
{
    let ghost av = layouts_view(all_layouts@);
    let ghost fs = target@.fields;
    let ghost g = |x: FieldModel| nested_layout_name(x, av);
    let mut acc: Vec<Vec<char>> = Vec::new();
    acc.push(chars_of(target.struct_name.as_str()));
    let ghost acc0 = names_view(acc@);
    assert(acc0 =~= seq![target@.struct_name]);
    let fuel = all_layouts.len();
    assert(fs.take(0) =~= Seq::<FieldModel>::empty());
    let mut i: usize = 0;
    while i < target.fields.len()
        invariant
            i <= target.fields@.len(),
            fs == target@.fields,
            av == layouts_view(all_layouts@),
            fuel == all_layouts@.len(),
            acc@.len() >= 1,
            g == (|x: FieldModel| nested_layout_name(x, av)),
            names_view(acc@) == visit_structs(av, collect_some(fs.take(i as int), g), fuel as nat, acc0),
        decreases target.fields@.len() - i,
    {
        proof { lemma_collect_some_step(fs, i as int, g); }
        let ghost c0 = collect_some(fs.take(i as int), g);
        assert(fs[i as int] == target.fields@[i as int]@);
        match nested_layout_name_exec(&target.fields[i], all_layouts) {
            Some(n) => {
                assert(collect_some(fs.take(i + 1), g) == c0.push(n@));
                assert(c0.push(n@).drop_last() == c0);
                visit_struct_exec(all_layouts, n.as_slice(), fuel, &mut acc);
            },
            None => {
                assert(collect_some(fs.take(i + 1), g) =~= c0);
            },
        }
        i += 1;
    }
    assert(fs.take(fs.len() as int) == fs);
    assert(av.len() == all_layouts@.len());
    let ghost full = names_view(acc@);
    assert(full == visit_structs(av, embedded_names(target@, av), av.len(), seq![target@.struct_name]));
    let ghost nv = full.drop_first();
    let ghost h = |n: Seq<char>|
        match first_layout(av, n) {
            Some(l) => struct_typedef(l, av),
            None => Seq::empty(),
        };
    let ghost start = out@;
    assert(nv.take(0) =~= Seq::<Seq<char>>::empty());
    let mut j: usize = 1;
    while j < acc.len()
        invariant
            1 <= j <= acc@.len(),
            full == names_view(acc@),
            nv == full.drop_first(),
            av == layouts_view(all_layouts@),
            h == (|n: Seq<char>|
                match first_layout(av, n) {
                    Some(l) => struct_typedef(l, av),
                    None => Seq::empty(),
                }),
            out@ == start + join_all(nv.take(j - 1), h),
        decreases acc@.len() - j,
    {
        proof { lemma_join_all_step(nv, j - 1, h); }
        assert(nv[j - 1] == acc@[j as int]@);
        match find_layout(all_layouts, acc[j].as_slice()) {
            Some(k) => emit_struct_typedef(out, &all_layouts[k], all_layouts),
            None => {},
        }
        j += 1;
    }
    assert(nv.take(nv.len() as int) == nv);
    emit_struct_typedef(out, target, all_layouts);
}

fn push_meta_line(out: &mut Vec<char>, f: &FieldLayout)
    ensures
        final(out)@ == old(out)@ + meta_line(f@),
{
    push_str(out, "    { \"");
    push_opt_name(out, &f.name, "?");
    push_str(out, "\", ");
    push_decimal(out, f.byte_offset);
    push_str(out, ", ");
    push_decimal(out, f.byte_size);
    push_str(out, ", ");
    match classify_field(f) {
        FieldKind::Input => push_str(out, "1"),
        _ => push_str(out, "0"),
    }
    push_str(out, " },\n");
    assert(out@ =~= old(out)@ + meta_line(f@));
}

fn state_and_input_bytes(layout: &ProgramLayout) -> (r: (u64, u64))
    requires
        sizes_fit(layout@),
    ensures
        r.0 == state_bytes(layout@.fields),
        r.1 == input_bytes(layout@.fields),
{
    let ghost fs = layout@.fields;
    let mut st: u64 = 0;
    let mut inp: u64 = 0;
    let mut i: usize = 0;
    proof { lemma_input_within_state(fs); }
    while i < layout.fields.len()
        invariant
            i <= layout.fields@.len(),
            fs == layout@.fields,
            state_bytes(fs) <= u64::MAX,
            st == state_bytes(fs.take(i as int)),
            inp == input_bytes(fs.take(i as int)),
        decreases layout.fields@.len() - i,
    {
        assert(fs.take(i + 1).drop_last() == fs.take(i as int));
        assert(fs.take(i + 1).last() == fs[i as int]);
        proof {
            lemma_sums_prefix(fs, i + 1);
            lemma_input_within_state(fs.take(i + 1));
        }
        let k = classify_field(&layout.fields[i]);
        let b = layout.fields[i].byte_size;
        match k {
            FieldKind::Vtable => {},
            FieldKind::Input => {
                st = st + b;
                inp = inp + b;
            },
            FieldKind::State => {
                st = st + b;
            },
        }
        i += 1;
    }
    assert(fs.take(fs.len() as int) == fs);
    (st, inp)
}

fn emit_field_meta_table(out: &mut Vec<char>, layout: &ProgramLayout)
    requires
        sizes_fit(layout@),
    ensures
        final(out)@ == old(out)@ + field_meta_table_text(layout@),
{
    let ghost fs = layout@.fields;
    let ghost f = |x: FieldModel| meta_line(x);
    push_str(out, "/* Field metadata */\ntypedef struct {\n    const char *name;\n    size_t offset;\n    size_t size;\n    int is_input;  /* 1=VAR_INPUT, 0=VAR/internal */\n} PrismFieldMeta;\n\nstatic const PrismFieldMeta PRISM_FIELDS[] = {\n");
    let ghost start = out@;
    let mut i: usize = 0;
    while i < layout.fields.len()
        invariant
            i <= layout.fields@.len(),
            fs == layout@.fields,
            f == (|x: FieldModel| meta_line(x)),
            out@ == start + join_all(fs.take(i as int), f),
        decreases layout.fields@.len() - i,
    {
        proof { lemma_join_all_step(fs, i as int, f); }
        push_meta_line(out, &layout.fields[i]);
        i += 1;
    }
    assert(fs.take(fs.len() as int) == fs);
    push_str(out, "};\n");
    push_str(out, "static const uint32_t PRISM_FIELD_COUNT = ");
    push_decimal(out, layout.fields.len() as u64);
    push_str(out, ";\n\n");
    let (st, _) = state_and_input_bytes(layout);
    push_str(out, "static const size_t PRISM_STATE_SIZE = ");
    push_decimal(out, st);
    push_str(out, ";\n\n");
    assert(out@ =~= old(out)@ + field_meta_table_text(layout@));
}

fn emit_lifecycle(out: &mut Vec<char>, layout: &ProgramLayout)
    ensures
        final(out)@ == old(out)@ + lifecycle_text(layout@),
{
    push_str(out, "/* ── Lifecycle ─────────────────────────────────────── */\n\n");
    push_str(out, "void *prism_alloc(void) {\n    void *p = calloc(1, ");
    push_decimal(out, layout.total_bytes);
    push_str(out, ");\n    return p;\n}\n\n");
    push_str(out, "void prism_reset(void *instance) {\n    memset(instance, 0, ");
    push_decimal(out, layout.total_bytes);
    push_str(out, ");\n}\n\n");
    push_str(out, "void prism_free(void *instance) {\n    free(instance);\n}\n\n");
    push_str(out, "extern void ");
    push_str(out, layout.struct_name.as_str());
    push_str(out, "(");
    push_str(out, layout.struct_name.as_str());
    push_str(out, "_t *instance);\n\n");
    assert(out@ =~= old(out)@ + lifecycle_text(layout@));
}

fn push_run_input_block(out: &mut Vec<char>, f: &FieldLayout)
    ensures
        final(out)@ == old(out)@ + run_input_block(f@),
{
    match classify_field(f) {
        FieldKind::Input => {
            push_str(out, "    if (cursor + ");
            push_decimal(out, f.byte_size);
            push_str(out, " <= len) {\n");
            push_str(out, "        memcpy(&s->");
            push_member_name(out, f);
            push_str(out, ", data + cursor, ");
            push_decimal(out, f.byte_size);
            push_str(out, ");\n");
            push_str(out, "    }\n");
            push_str(out, "    cursor += ");
            push_decimal(out, f.byte_size);
            push_str(out, ";\n");
        },
        _ => {},
    }
    assert(out@ =~= old(out)@ + run_input_block(f@));
}

fn push_instance_cast(out: &mut Vec<char>, s: &str)
    ensures
        final(out)@ == old(out)@ + ("    "@ + s@ + "_t *s = ("@ + s@ + "_t *)instance;\n"@),
{
    push_str(out, "    ");
    push_str(out, s);
    push_str(out, "_t *s = (");
    push_str(out, s);
    push_str(out, "_t *)instance;\n");
    assert(out@ =~= old(out)@ + ("    "@ + s@ + "_t *s = ("@ + s@ + "_t *)instance;\n"@));
}

/// The start of `prism_run`, up to the input copying.
pub open spec fn run_fn_head(l: LayoutModel) -> Seq<char> {
    let s = l.struct_name;
    "/* ── Execution ──────────────────────────────────────── */\n\n"@ + "void prism_run(void *instance, const uint8_t *data, size_t len) {\n"@
        + ("    "@ + s + "_t *s = ("@ + s + "_t *)instance;\n"@) + "    size_t cursor = 0;\n"@
}

/// The end of `prism_run`, after the input copying.
pub open spec fn run_fn_tail(program_name: Seq<char>) -> Seq<char> {
    "    (void)cursor;\n"@ + "    "@ + program_name + "(s);\n"@ + "}\n\n"@
}

/// The `prism_run` function: copy the inputs, then run one cycle.
pub open spec fn run_fn_text(l: LayoutModel, program_name: Seq<char>) -> Seq<char> {
    run_fn_head(l) + join_all(l.fields, |f: FieldModel| run_input_block(f)) + run_fn_tail(
        program_name,
    )
}

fn emit_run_head(out: &mut Vec<char>, layout: &ProgramLayout)
    ensures
        final(out)@ == old(out)@ + run_fn_head(layout@),
{
    push_str(out, "/* ── Execution ──────────────────────────────────────── */\n\n");
    push_str(out, "void prism_run(void *instance, const uint8_t *data, size_t len) {\n");
    push_instance_cast(out, layout.struct_name.as_str());
    push_str(out, "    size_t cursor = 0;\n");
    assert(out@ =~= old(out)@ + run_fn_head(layout@));
}

fn emit_run_tail(out: &mut Vec<char>, program_name: &str)
    ensures
        final(out)@ == old(out)@ + run_fn_tail(program_name@),
{
    push_str(out, "    (void)cursor;\n");
    push_str(out, "    ");
    push_str(out, program_name);
    push_str(out, "(s);\n");
    push_str(out, "}\n\n");
    assert(out@ =~= old(out)@ + run_fn_tail(program_name@));
}

fn emit_run_fn(out: &mut Vec<char>, layout: &ProgramLayout, program_name: &str)
    ensures
        final(out)@ == old(out)@ + run_fn_text(layout@, program_name@),
{
    let ghost fs = layout@.fields;
    let ghost f = |x: FieldModel| run_input_block(x);
    emit_run_head(out, layout);
    let ghost start = out@;
    let mut i: usize = 0;
    while i < layout.fields.len()
        invariant
            i <= layout.fields@.len(),
            fs == layout@.fields,
            f == (|x: FieldModel| run_input_block(x)),
            out@ == start + join_all(fs.take(i as int), f),
        decreases layout.fields@.len() - i,
    {
        proof { lemma_join_all_step(fs, i as int, f); }
        push_run_input_block(out, &layout.fields[i]);
        i += 1;
    }
    assert(fs.take(fs.len() as int) == fs);
    let ghost mid = out@;
    emit_run_tail(out, program_name);
    assert(out@ =~= old(out)@ + run_fn_text(layout@, program_name@));
}

fn emit_execution(out: &mut Vec<char>, layout: &ProgramLayout, program_name: &str)
    requires
        sizes_fit(layout@),
    ensures
        final(out)@ == old(out)@ + execution_text(layout@, program_name@),
{
    emit_run_fn(out, layout, program_name);
    let ghost mid = out@;
    push_str(out, "void prism_step(void *instance) {\n");
    push_instance_cast(out, layout.struct_name.as_str());
    push_str(out, "    ");
    push_str(out, program_name);
    push_str(out, "(s);\n");
    push_str(out, "}\n\n");
    let (_, inp) = state_and_input_bytes(layout);
    push_str(out, "size_t prism_input_size(void) { return ");
    push_decimal(out, inp);
    push_str(out, "; }\n\n");
    let ghost s = layout@.struct_name;
    assert(out@ =~= mid + ("void prism_step(void *instance) {\n"@ + ("    "@ + s + "_t *s = ("@ + s
        + "_t *)instance;\n"@) + "    "@ + program_name@ + "(s);\n"@ + "}\n\n"@
        + "size_t prism_input_size(void) { return "@ + decimal(input_bytes(layout@.fields))
        + "; }\n\n"@));
    assert(out@ =~= old(out)@ + execution_text(layout@, program_name@));
}

fn emit_abort_oracle(out: &mut Vec<char>)
    ensures
        final(out)@ == old(out)@ + abort_oracle_text(),
{
    push_str(out, "/* ── Abort oracle ───────────────────────────────────── */\n\nint32_t prism_bug_abort_if(int32_t should_abort) {\n    if (should_abort != 0) {\n        __builtin_trap();\n    }\n    return 0;\n}\n\n");
}

fn has_vtable_exec(layout: &ProgramLayout) -> (b: bool)
    ensures
        b == has_vtable(layout@),
{
    let ghost fs = layout@.fields;
    let mut i: usize = 0;
    while i < layout.fields.len()
        invariant
            i <= layout.fields@.len(),
            fs == layout@.fields,
            forall|j: int| 0 <= j < i ==> #[trigger] fs[j].name != Some("__vtable"@),
        decreases layout.fields@.len() - i,
    {
        match &layout.fields[i].name {
            Some(n) => {
                if eq_str(chars_of(n.as_str()).as_slice(), "__vtable") {
                    assert(fs[i as int].name == Some("__vtable"@));
                    return true;
                }
            },
            None => {},
        }
        i += 1;
    }
    false
}

fn emit_state_access(out: &mut Vec<char>, layout: &ProgramLayout)
    ensures
        final(out)@ == old(out)@ + state_access_text(layout@),
{
    push_str(out, "/* ── State access ───────────────────────────────────── */\n\n");
    push_str(out, "size_t prism_state_size(void) { return PRISM_STATE_SIZE; }\n\n");
    push_str(out, "void prism_get_state(const void *instance, uint8_t *out) {\n    memcpy(out, instance, ");
    push_decimal(out, layout.total_bytes);
    push_str(out, ");\n}\n\n");
    push_str(out, "void prism_set_state(void *instance, const uint8_t *state, size_t len) {\n");
    push_str(out, "    if (len > ");
    push_decimal(out, layout.total_bytes);
    push_str(out, ") len = ");
    push_decimal(out, layout.total_bytes);
    push_str(out, ";\n");
    if has_vtable_exec(layout) {
        push_str(out, "    /* Preserve vtable pointer at offset 0 */\n    uint8_t *dst = (uint8_t *)instance;\n    if (len > 8) {\n        memcpy(dst + 8, state + 8, len - 8);\n    }\n");
    } else {
        push_str(out, "    memcpy(instance, state, len);\n");
    }
    push_str(out, "}\n\n");
    assert(out@ =~= old(out)@ + state_access_text(layout@));
}

fn emit_field_access(out: &mut Vec<char>, layout: &ProgramLayout)
    ensures
        final(out)@ == old(out)@ + field_access_text(),
{
    push_str(out, "/* ── Field access ───────────────────────────────────── */\n\nsize_t prism_get_field(const void *instance, uint32_t idx, uint8_t *out) {\n    if (idx >= PRISM_FIELD_COUNT) return 0;\n    const PrismFieldMeta *f = &PRISM_FIELDS[idx];\n    memcpy(out, (const uint8_t *)instance + f->offset, f->size);\n    return f->size;\n}\n\nint prism_set_field(void *instance, uint32_t idx, const uint8_t *data, size_t len) {\n    if (idx >= PRISM_FIELD_COUNT) return 0;\n    const PrismFieldMeta *f = &PRISM_FIELDS[idx];\n    if (len != f->size) return 0;\n    /* Never allow writing to vtable */\n    if (f->offset == 0 && f->size == 8 && !f->is_input) return 0;\n    memcpy((uint8_t *)instance + f->offset, data, f->size);\n    return 1;\n}\n\n");
}

fn emit_metadata(out: &mut Vec<char>, layout: &ProgramLayout, program_name: &str)
    ensures
        final(out)@ == old(out)@ + metadata_text(layout@, program_name@),
{
    push_str(out, "/* ── Metadata ───────────────────────────────────────── */\n\n");
    push_str(out, "size_t   prism_struct_size(void)  { return ");
    push_decimal(out, layout.total_bytes);
    push_str(out, "; }\n");
    push_str(out, "uint32_t prism_field_count(void)  { return PRISM_FIELD_COUNT; }\n");
    push_str(out, "const char *prism_program_name(void) { return \"");
    push_str(out, program_name);
    push_str(out, "\"; }\n\n");
    push_str(out, "const char *prism_field_name(uint32_t idx) {\n    if (idx >= PRISM_FIELD_COUNT) return 0;\n    return PRISM_FIELDS[idx].name;\n}\n\nsize_t prism_field_offset(uint32_t idx) {\n    if (idx >= PRISM_FIELD_COUNT) return 0;\n    return PRISM_FIELDS[idx].offset;\n}\n\nsize_t prism_field_size(uint32_t idx) {\n    if (idx >= PRISM_FIELD_COUNT) return 0;\n    return PRISM_FIELDS[idx].size;\n}\n\nint prism_field_is_input(uint32_t idx) {\n    if (idx >= PRISM_FIELD_COUNT) return 0;\n    return PRISM_FIELDS[idx].is_input;\n}\n");
    assert(out@ =~= old(out)@ + metadata_text(layout@, program_name@));
}

/// The C harness for program `program_name`: an error when `all_layouts`
/// has no layout of that name, else, for the first such layout, the header,
/// the struct typedefs (embedded structs first), the field metadata table,
/// lifecycle and execution functions, the abort oracle, and the state access,
/// field access and metadata functions.
pub fn generate_harness(all_layouts: &Vec<ProgramLayout>, program_name: &str) -> (r: Result<
    String,
    String,
>)
    requires
        match first_layout(layouts_view(all_layouts@), program_name@) {
            Some(l) => sizes_fit(l),
            None => true,
        },
    ensures
        match first_layout(layouts_view(all_layouts@), program_name@) {
            Some(l) => r matches Ok(s) && s@ == harness_text(
                layouts_view(all_layouts@),
                l,
                program_name@,
            ),
            None => r matches Err(e) && e@ == missing_program_message(program_name@),
        },
{
    let k = match find_layout(all_layouts, chars_of(program_name).as_slice()) {
        Some(k) => k,
        None => {
            let mut msg: Vec<char> = Vec::new();
            push_str(&mut msg, "Program '");
            push_str(&mut msg, program_name);
            push_str(&mut msg, "' not found in layout JSON");
            assert(msg@ =~= missing_program_message(program_name@));
            return Err(string_from(msg.as_slice()));
        },
    };
    let layout = &all_layouts[k];
    let mut out: Vec<char> = Vec::new();
    emit_header(&mut out, program_name);
    emit_forward_decls(&mut out, all_layouts, layout);
    emit_field_meta_table(&mut out, layout);
    emit_lifecycle(&mut out, layout);
    emit_execution(&mut out, layout, program_name);
    emit_abort_oracle(&mut out);
    emit_state_access(&mut out, layout);
    emit_field_access(&mut out, layout);
    emit_metadata(&mut out, layout, program_name);
    assert(out@ =~= harness_text(layouts_view(all_layouts@), layout@, program_name@));
    Ok(string_from(out.as_slice()))
}

} // verus!
