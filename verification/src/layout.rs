//! Byte layouts of the program structs of an LLVM module.
//!
//! Each ST program (or function block) keeps its state in a struct named
//! after its function.  The module is read as plain data: the functions'
//! names and each named struct type with the sizes and offsets the target's
//! data layout gives it.
use vstd::prelude::*;
use crate::text::{chars_of, string_from};
use crate::metadata::{
    clone_strings, debug_struct_fields, extract_field_names_from_debug, lookup, metadata_entries,
    strings_view, FieldNameMap,
};
use crate::ir_names::{find_struct_name_in_ir, struct_name_in_ir};
use crate::ddg_graph::{opt_chars, opt_str};

verus! {

/// One field of a program struct.
#[derive(Debug, Clone)]
pub struct FieldLayout {
    /// Zero-based field index in the struct.
    pub index: u32,
    /// Source name from the debug metadata; `None` without debug info.
    pub name: Option<String>,
    /// The LLVM type as printed (e.g. `i16`, `[10 x i8]`).
    pub llvm_type: String,
    pub byte_size: u64,
    pub byte_offset: u64,
}

/// The layout of a program struct.
#[derive(Debug, Clone)]
pub struct ProgramLayout {
    /// Struct type name (without `%`).
    pub struct_name: String,
    /// The function that takes the struct as its first argument.
    pub function_name: String,
    pub total_bytes: u64,
    pub fields: Vec<FieldLayout>,
}

/// A field type of a struct, measured by the target data layout.
#[derive(Debug, Clone)]
pub struct FieldTypeInfo {
    /// The type as printed.
    pub llvm_type: String,
    pub bit_size: u64,
    /// Byte offset within the struct, when the data layout gives one.
    pub byte_offset: Option<u64>,
}

/// A named struct type of the module.
#[derive(Debug, Clone)]
pub struct StructTypeInfo {
    pub name: String,
    /// A struct declared without a body.
    pub opaque: bool,
    pub bit_size: u64,
    pub fields: Vec<FieldTypeInfo>,
}

/// What the layout extraction reads from a module.
#[derive(Debug, Clone)]
pub struct ModuleInfo {
    /// Function names in module order; `None` for a name that is not UTF-8.
    pub functions: Vec<Option<String>>,
    pub structs: Vec<StructTypeInfo>,
}

/// A module whose struct field counts fit the `u32` indices LLVM uses.
pub open spec fn module_wf(m: ModuleInfo) -> bool {
    forall|i: int| 0 <= i < m.structs@.len() ==> #[trigger] m.structs@[i].fields@.len() <= u32::MAX
}

/// A field layout as mathematical values.
pub struct FieldModel {
    pub index: u32,
    pub name: Option<Seq<char>>,
    pub llvm_type: Seq<char>,
    pub byte_size: u64,
    pub byte_offset: u64,
}

/// A program layout as mathematical values.
pub struct LayoutModel {
    pub struct_name: Seq<char>,
    pub function_name: Seq<char>,
    pub total_bytes: u64,
    pub fields: Seq<FieldModel>,
}

impl View for FieldLayout {
    type V = FieldModel;

    open spec fn view(&self) -> FieldModel {
        FieldModel {
            index: self.index,
            name: opt_chars(self.name),
            llvm_type: self.llvm_type@,
            byte_size: self.byte_size,
            byte_offset: self.byte_offset,
        }
    }
}

impl View for ProgramLayout {
    type V = LayoutModel;

    open spec fn view(&self) -> LayoutModel {
        LayoutModel {
            struct_name: self.struct_name@,
            function_name: self.function_name@,
            total_bytes: self.total_bytes,
            fields: self.fields@.map_values(|f: FieldLayout| f@),
        }
    }
}

/// The layouts as models.
pub open spec fn layouts_view(ls: Seq<ProgramLayout>) -> Seq<LayoutModel> {
    ls.map_values(|l: ProgramLayout| l@)
}

/// The first struct type named `name`.
pub open spec fn find_struct(ss: Seq<StructTypeInfo>, name: Seq<char>) -> Option<StructTypeInfo>
    decreases ss.len(),
{
    if ss.len() == 0 {
        None
    } else if ss[0].name@ == name {
        Some(ss[0])
    } else {
        find_struct(ss.drop_first(), name)
    }
}

/// The struct of function `fname`: the struct of the same name, or else the
/// one its definition in the IR text takes as typed pointer.
pub open spec fn struct_for(m: ModuleInfo, ir: Seq<char>, fname: Seq<char>) -> Option<StructTypeInfo> {
    match find_struct(m.structs@, fname) {
        Some(s) => Some(s),
        None => match struct_name_in_ir(ir, fname) {
            Some(n) => find_struct(m.structs@, n),
            None => None,
        },
    }
}

/// Field `i` of a struct, named from `names` where it has an `i`-th name.
pub open spec fn field_model(i: int, f: FieldTypeInfo, names: Seq<Seq<char>>) -> FieldModel {
    FieldModel {
        index: i as u32,
        name: if i < names.len() {
            Some(names[i])
        } else {
            None
        },
        llvm_type: f.llvm_type@,
        byte_size: f.bit_size / 8,
        byte_offset: match f.byte_offset {
            Some(o) => o,
            None => 0,
        },
    }
}

/// The layout of function `fname`'s struct, unless it has none, is opaque or
/// has no fields: named after that struct, with the field names the debug
/// metadata gives for it.
pub open spec fn program_layout_model(
    m: ModuleInfo,
    ir: Seq<char>,
    fname: Seq<char>,
    debug: Seq<(Seq<char>, Seq<Seq<char>>)>,
) -> Option<LayoutModel> {
    match struct_for(m, ir, fname) {
        None => None,
        Some(st) => if st.opaque || st.fields@.len() == 0 {
            None
        } else {
            let names = match lookup(debug, st.name@) {
                Some(ns) => ns,
                None => Seq::empty(),
            };
            Some(
                LayoutModel {
                    struct_name: st.name@,
                    function_name: fname,
                    total_bytes: st.bit_size / 8,
                    fields: Seq::new(
                        st.fields@.len(),
                        |i: int| field_model(i, st.fields@[i], names),
                    ),
                },
            )
        },
    }
}

/// A function whose struct is laid out: not an LLVM intrinsic or compiler
/// helper, and the one the filter names when there is one.
pub open spec fn layout_selected(name: Seq<char>, filter: Option<Seq<char>>) -> bool {
    !crate::ir_names::skipped_function(name) && match filter {
        Some(f) => name == f,
        None => true,
    }
}

/// The layouts of the module's program structs, in function order.
pub open spec fn layouts_model(m: ModuleInfo, ir: Seq<char>, filter: Option<Seq<char>>) -> Seq<
    LayoutModel,
> {
    let debug = debug_struct_fields(metadata_entries(crate::text::lines_of(ir)), false);
    crate::text::collect_some(
        m.functions@,
        |fo: Option<String>|
            match fo {
                Some(n) => if layout_selected(n@, filter) {
                    program_layout_model(m, ir, n@, debug)
                } else {
                    None
                },
                None => None,
            },
    )
}

fn find_struct_exec(ss: &Vec<StructTypeInfo>, name: &[char]) -> (r: Option<usize>)
    ensures
        match r {
            Some(k) => k < ss@.len() && find_struct(ss@, name@) == Some(ss@[k as int]),
            None => find_struct(ss@, name@) is None,
        },
{
    let mut k: usize = 0;
    assert(ss@.skip(0) == ss@);
    while k < ss.len()
        invariant
            k <= ss@.len(),
            find_struct(ss@, name@) == find_struct(ss@.skip(k as int), name@),
        decreases ss@.len() - k,
    {
        assert(ss@.skip(k as int)[0] == ss@[k as int]);
        assert(ss@.skip(k as int).drop_first() == ss@.skip(k + 1));
        let nk = chars_of(ss[k].name.as_str());
        if crate::text::chars_eq(nk.as_slice(), name) {
            return Some(k);
        }
        k += 1;
    }
    None
}

fn program_layout(m: &ModuleInfo, ir_text: &str, fname: &String, debug: &FieldNameMap) -> (r: Option<
    ProgramLayout,
>)
    requires
        module_wf(*m),
    ensures
        match r {
            Some(l) => program_layout_model(*m, ir_text@, fname@, debug.view_entries()) == Some(l@),
            None => program_layout_model(*m, ir_text@, fname@, debug.view_entries()) is None,
        },
{
    let fc = chars_of(fname.as_str());
    let k = match find_struct_exec(&m.structs, fc.as_slice()) {
        Some(k) => k,
        None => match find_struct_name_in_ir(ir_text, fname.as_str()) {
            Some(n) => match find_struct_exec(&m.structs, chars_of(n.as_str()).as_slice()) {
                Some(k) => k,
                None => return None,
            },
            None => return None,
        },
    };
    let st = &m.structs[k];
    assert(struct_for(*m, ir_text@, fname@) == Some(*st));
    if st.opaque || st.fields.len() == 0 {
        return None;
    }
    let sc = chars_of(st.name.as_str());
    let names: Vec<String> = match debug.get(sc.as_slice()) {
        Some(ns) => ns,
        None => Vec::new(),
    };
    let ghost nv = match lookup(debug.view_entries(), st.name@) {
        Some(ns) => ns,
        None => Seq::<Seq<char>>::empty(),
    };
    assert(strings_view(names@) == nv);
    assert(st.fields@.len() <= u32::MAX);
    let mut fields: Vec<FieldLayout> = Vec::new();
    let mut i: usize = 0;
    while i < st.fields.len()
        invariant
            i <= st.fields@.len(),
            st.fields@.len() <= u32::MAX,
            strings_view(names@) == nv,
            fields@.len() == i,
            forall|j: int|
                0 <= j < i ==> #[trigger] fields@[j]@ == field_model(j, st.fields@[j], nv),
        decreases st.fields@.len() - i,
    {
        let f = &st.fields[i];
        let name = if i < names.len() {
            Some(string_from(chars_of(names[i].as_str()).as_slice()))
        } else {
            None
        };
        proof {
            if i < names@.len() {
                assert(nv[i as int] == names@[i as int]@);
            }
        }
        let fl = FieldLayout {
            index: i as u32,
            name,
            llvm_type: string_from(chars_of(f.llvm_type.as_str()).as_slice()),
            byte_size: f.bit_size / 8,
            byte_offset: match f.byte_offset {
                Some(o) => o,
                None => 0,
            },
        };
        assert(fl@ == field_model(i as int, st.fields@[i as int], nv));
        fields.push(fl);
        i += 1;
    }
    let l = ProgramLayout {
        struct_name: string_from(sc.as_slice()),
        function_name: string_from(fc.as_slice()),
        total_bytes: st.bit_size / 8,
        fields,
    };
    assert(l@.fields =~= Seq::new(
        st.fields@.len(),
        |i: int| field_model(i, st.fields@[i], nv),
    ));
    Some(l)
}

/// The layout of every program struct of the module: for each function
/// other than an LLVM intrinsic or compiler init/runtime helper (only the one `function_filter` names, when
/// given) whose struct (of the same name, or else the one its definition
/// takes as typed pointer) is neither opaque nor empty, the struct's size and
/// each field's type, size, offset and source name from the debug metadata.
pub fn extract_layout(module: &ModuleInfo, ir_text: &str, function_filter: Option<&str>) -> (r: Vec<
    ProgramLayout,
>)
    requires
        module_wf(*module),
    ensures
        layouts_view(r@) == layouts_model(*module, ir_text@, opt_str(function_filter)),
{
    let debug = extract_field_names_from_debug(ir_text);
    let ghost dv = debug.view_entries();
    let ghost fv = opt_str(function_filter);
    let ghost fns = module.functions@;
    let ghost f = |fo: Option<String>|
        match fo {
            Some(n) => if layout_selected(n@, fv) {
                program_layout_model(*module, ir_text@, n@, dv)
            } else {
                None
            },
            None => None,
        };
    let mut out: Vec<ProgramLayout> = Vec::new();
    let mut i: usize = 0;
    while i < module.functions.len()
        invariant
            i <= fns.len(),
            fns == module.functions@,
            module_wf(*module),
            dv == debug.view_entries(),
            dv == debug_struct_fields(metadata_entries(crate::text::lines_of(ir_text@)), false),
            fv == opt_str(function_filter),
            f == (|fo: Option<String>|
                match fo {
                    Some(n) => if layout_selected(n@, fv) {
                        program_layout_model(*module, ir_text@, n@, dv)
                    } else {
                        None
                    },
                    None => None,
                }),
            layouts_view(out@) == crate::text::collect_some(fns.take(i as int), f),
        decreases fns.len() - i,
    {
        proof { crate::text::lemma_collect_some_step(fns, i as int, f); }
        match &module.functions[i] {
            Some(name) => {
                let nc = chars_of(name.as_str());
                let selected = !crate::ir_names::is_llvm_intrinsic(nc.as_slice()) && match function_filter {
                    Some(ft) => crate::text::eq_str(nc.as_slice(), ft),
                    None => true,
                };
                if selected {
                    match program_layout(module, ir_text, name, &debug) {
                        Some(l) => {
                            let ghost before = out@;
                            out.push(l);
                            assert(layouts_view(out@) =~= layouts_view(before).push(l@));
                        },
                        None => {},
                    }
                }
            },
            None => {},
        }
        i += 1;
    }
    assert(fns.take(fns.len() as int) == fns);
    out
}

} // verus!
