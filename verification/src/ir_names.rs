//! Names in LLVM IR text: SSA definitions and named struct types.
use vstd::prelude::*;
use crate::text::{
    chars_of, collect_some, contains_spec, contains_str, find, find_spec, is_alnum, lemma_find_from,
    lemma_collect_some_step, lines, lines_of, slice_of, starts_with_char, starts_with_char_exec,
    strip_prefixes, trim, trim_spec, trim_start, trim_start_matches, trim_start_spec,
};
use crate::metadata::{is_ssa_char, ssa_char};

verus! {

// ---------------------------------------------------------------------------
// SSA definitions
// ---------------------------------------------------------------------------

/// Whether a character is alphanumeric in Unicode's sense
/// (`char::is_alphanumeric`).
pub uninterp spec fn unicode_alphanumeric(c: char) -> bool;

/// Calls `char::is_alphanumeric`, which is true for characters that are
/// alphabetic or numeric in Unicode.  Claimed beyond the name: on ASCII
/// characters it holds exactly for the letters and digits.
#[verifier::external_body]
fn char_is_alphanumeric(c: char) -> (b: bool)
    ensures
        b == unicode_alphanumeric(c),
        (c as u32) < 128 ==> (b == is_alnum(c)),
{
    c.is_alphanumeric()
}

/// The trimmed text before the first `=` of an instruction that starts with
/// `%` (leading whitespace aside).
pub open spec fn definition_lhs(ir: Seq<char>) -> Option<Seq<char>> {
    let t = trim_start_spec(ir);
    if !starts_with_char(t, '%') {
        None
    } else {
        match find_spec(t, seq!['=']) {
            Some(e) => Some(trim_spec(t.take(e))),
            None => None,
        }
    }
}

/// `%` followed by at least one SSA-name character and nothing else.
pub open spec fn valid_ssa(tok: Seq<char>) -> bool {
    starts_with_char(tok, '%') && tok.len() >= 2 && forall|i: int|
        1 <= i < tok.len() ==> ssa_char(#[trigger] tok[i])
}

/// The SSA name an instruction defines, when it is a valid SSA token.
pub open spec fn definition_ssa(ir: Seq<char>) -> Option<Seq<char>> {
    match definition_lhs(ir) {
        Some(l) => if valid_ssa(l) {
            Some(l)
        } else {
            None
        },
        None => None,
    }
}

/// A character allowed after `%` by the looser definition parser.
pub open spec fn loose_ssa_char(c: char) -> bool {
    unicode_alphanumeric(c) || c == '_' || c == '.'
}

/// The name an instruction defines under the looser rule: any Unicode
/// alphanumeric, `_` or `.` after the `%`, possibly none.
pub open spec fn ssa_def_name(ir: Seq<char>) -> Option<Seq<char>> {
    match definition_lhs(ir) {
        Some(l) => if forall|i: int| 1 <= i < l.len() ==> loose_ssa_char(#[trigger] l[i]) {
            Some(l)
        } else {
            None
        },
        None => None,
    }
}

fn definition_lhs_exec(ir: &[char]) -> (r: Option<Vec<char>>)
    ensures
        match r {
            Some(v) => definition_lhs(ir@) == Some(v@) && starts_with_char(v@, '%'),
            None => definition_lhs(ir@) is None,
        },
{
    let t = trim_start(ir);
    if !starts_with_char_exec(t.as_slice(), '%') {
        return None;
    }
    let eq: Vec<char> = vec!['='];
    assert(eq@ == seq!['=']);
    match find(t.as_slice(), eq.as_slice()) {
        Some(e) => {
            proof { lemma_find_from(t@, seq!['='], 0); }
            assert(e > 0);
            let head = slice_of(t.as_slice(), 0, e);
            assert(head@ == t@.take(e as int));
            let l = trim(head.as_slice());
            proof { lemma_trim_keeps_first(head@); }
            Some(l)
        },
        None => None,
    }
}

/// Trimming a sequence that starts with a non-whitespace character keeps
/// that character first.
proof fn lemma_trim_keeps_first(s: Seq<char>)
    requires
        s.len() > 0,
        !crate::text::is_ws(s[0]),
    ensures
        trim_spec(s).len() > 0,
        trim_spec(s)[0] == s[0],
{
    assert(trim_start_spec(s) == s);
    lemma_trim_end_keeps_first(s);
}

proof fn lemma_trim_end_keeps_first(s: Seq<char>)
    requires
        s.len() > 0,
        !crate::text::is_ws(s[0]),
    ensures
        crate::text::trim_end_spec(s).len() > 0,
        crate::text::trim_end_spec(s)[0] == s[0],
    decreases s.len(),
{
    if s.len() > 1 && crate::text::is_ws(s.last()) {
        lemma_trim_end_keeps_first(s.drop_last());
    }
}

/// Whether `token` is `%` followed by one or more SSA-name characters.
pub fn is_valid_ssa(token: &[char]) -> (b: bool)
    ensures
        b == valid_ssa(token@),
{
    if !starts_with_char_exec(token, '%') || token.len() < 2 {
        return false;
    }
    let mut i: usize = 1;
    while i < token.len()
        invariant
            1 <= i <= token@.len(),
            forall|k: int| 1 <= k < i ==> ssa_char(#[trigger] token@[k]),
        decreases token@.len() - i,
    {
        if !is_ssa_char(token[i]) {
            return false;
        }
        i += 1;
    }
    true
}

/// The SSA name defined by an instruction's text (`%x = ...`), when the
/// left-hand side is a valid SSA token.
pub fn parse_definition_ssa(ir: &[char]) -> (r: Option<Vec<char>>)
    ensures
        match r {
            Some(v) => definition_ssa(ir@) == Some(v@),
            None => definition_ssa(ir@) is None,
        },
{
    match definition_lhs_exec(ir) {
        Some(l) => if is_valid_ssa(l.as_slice()) {
            Some(l)
        } else {
            None
        },
        None => None,
    }
}

/// The name defined by an instruction's text, allowing any Unicode
/// alphanumeric character (and `_`, `.`) after the `%`.
pub fn parse_ssa_def(ir: &[char]) -> (r: Option<Vec<char>>)
    ensures
        match r {
            Some(v) => ssa_def_name(ir@) == Some(v@),
            None => ssa_def_name(ir@) is None,
        },
{
    let l = match definition_lhs_exec(ir) {
        Some(l) => l,
        None => return None,
    };
    let mut i: usize = 1;
    while i < l.len()
        invariant
            1 <= i,
            i <= l@.len() || l@.len() == 0,
            l@.len() > 0,
            definition_lhs(ir@) == Some(l@),
            forall|k: int| 1 <= k < i && k < l@.len() ==> loose_ssa_char(#[trigger] l@[k]),
        decreases l@.len() - i,
    {
        let c = l[i];
        if !(char_is_alphanumeric(c) || c == '_' || c == '.') {
            assert(!loose_ssa_char(l@[i as int]));
            return None;
        }
        i += 1;
    }
    Some(l)
}


// ---------------------------------------------------------------------------
// Named struct types
// ---------------------------------------------------------------------------

/// A struct name without surrounding whitespace and without the `struct.` /
/// `class.` prefixes that front ends add.
pub open spec fn normalized_struct_name(name: Seq<char>) -> Seq<char> {
    strip_prefixes(strip_prefixes(trim_spec(name), "struct."@), "class."@)
}

/// The struct name without surrounding whitespace and `struct.`/`class.`
/// prefixes.
pub fn normalize_struct_name(name: &[char]) -> (r: Vec<char>)
    ensures
        r@ == normalized_struct_name(name@),
{
    let t = trim(name);
    let a = trim_start_matches(t.as_slice(), "struct.");
    trim_start_matches(a.as_slice(), "class.")
}

/// Index of the last `c` in `s`.
pub open spec fn last_index_of(s: Seq<char>, c: char) -> Option<int>
    decreases s.len(),
{
    if s.len() == 0 {
        None
    } else if s.last() == c {
        Some(s.len() - 1)
    } else {
        last_index_of(s.drop_last(), c)
    }
}

fn last_index_of_exec(s: &[char], c: char) -> (r: Option<usize>)
    ensures
        match r {
            Some(k) => last_index_of(s@, c) == Some(k as int) && k < s@.len(),
            None => last_index_of(s@, c) is None,
        },
{
    let mut k = s.len();
    assert(s@.take(k as int) == s@);
    while k > 0
        invariant
            k <= s@.len(),
            last_index_of(s@, c) == last_index_of(s@.take(k as int), c),
        decreases k,
    {
        assert(s@.take(k as int).drop_last() == s@.take(k - 1));
        if s[k - 1] == c {
            return Some(k - 1);
        }
        k -= 1;
    }
    None
}

/// Nesting depths of `()`, `{}` and `<>` and the number of commas seen at
/// depth zero, after scanning `s` (a closing bracket never takes a depth
/// below zero).
pub open spec fn comma_scan(s: Seq<char>) -> (nat, nat, nat, nat)
    decreases s.len(),
{
    if s.len() == 0 {
        (0, 0, 0, 0)
    } else {
        let (p, b, a, n) = comma_scan(s.drop_last());
        let c = s.last();
        if c == '(' {
            (p + 1, b, a, n)
        } else if c == ')' {
            ((if p > 0 { p - 1 } else { 0 }) as nat, b, a, n)
        } else if c == '{' {
            (p, b + 1, a, n)
        } else if c == '}' {
            (p, (if b > 0 { b - 1 } else { 0 }) as nat, a, n)
        } else if c == '<' {
            (p, b, a + 1, n)
        } else if c == '>' {
            (p, b, (if a > 0 { a - 1 } else { 0 }) as nat, n)
        } else if c == ',' && p == 0 && b == 0 && a == 0 {
            (p, b, a, n + 1)
        } else {
            (p, b, a, n)
        }
    }
}

/// The number of fields of a type declaration line `%T = type { ... }`:
/// one more than the commas at nesting depth zero between the first `{` and
/// the last `}`, or 0 when that body is missing or blank.
pub open spec fn struct_field_count(line: Seq<char>) -> nat {
    match (find_spec(line, seq!['{']), last_index_of(line, '}')) {
        (Some(st), Some(en)) => if en <= st {
            0
        } else {
            let body = trim_spec(line.subrange(st + 1, en));
            if body.len() == 0 {
                0
            } else {
                1 + comma_scan(body).3
            }
        },
        _ => 0,
    }
}

/// The number of fields in a struct type declaration line.
pub fn count_struct_fields(type_decl_line: &[char]) -> (n: usize)
    ensures
        n == struct_field_count(type_decl_line@),
{
    let open: Vec<char> = vec!['{'];
    assert(open@ == seq!['{']);
    let start = match find(type_decl_line, open.as_slice()) {
        Some(k) => k,
        None => return 0,
    };
    proof { lemma_find_from(type_decl_line@, seq!['{'], 0); }
    let end = match last_index_of_exec(type_decl_line, '}') {
        Some(k) => k,
        None => return 0,
    };
    if end <= start {
        return 0;
    }
    let inner = slice_of(type_decl_line, start + 1, end);
    let body = trim(inner.as_slice());
    if body.len() == 0 {
        return 0;
    }
    proof { crate::text::lemma_trim_len(inner@); }
    assert(body@.len() < type_decl_line@.len());
    let mut p: usize = 0;
    let mut b: usize = 0;
    let mut a: usize = 0;
    let mut n: usize = 0;
    let mut i: usize = 0;
    while i < body.len()
        invariant
            i <= body@.len(),
            p <= i && b <= i && a <= i && n <= i,
            body@.len() < type_decl_line@.len(),
            comma_scan(body@.take(i as int)) == (p as nat, b as nat, a as nat, n as nat),
        decreases body@.len() - i,
    {
        assert(body@.take(i + 1).drop_last() == body@.take(i as int));
        let c = body[i];
        if c == '(' {
            p += 1;
        } else if c == ')' {
            if p > 0 {
                p -= 1;
            }
        } else if c == '{' {
            b += 1;
        } else if c == '}' {
            if b > 0 {
                b -= 1;
            }
        } else if c == '<' {
            a += 1;
        } else if c == '>' {
            if a > 0 {
                a -= 1;
            }
        } else if c == ',' && p == 0 && b == 0 && a == 0 {
            n += 1;
        }
        i += 1;
    }
    assert(body@.take(body@.len() as int) == body@);
    n + 1
}

/// The named struct a line declares (`%Name = type { ... }`): its normalized
/// name and its field count.
pub open spec fn named_struct(line: Seq<char>) -> Option<(Seq<char>, nat)> {
    let t = trim_spec(line);
    if !starts_with_char(t, '%') || !contains_spec(t, "= type"@) {
        None
    } else {
        match find_spec(t, "= type"@) {
            Some(e) => Some(
                (normalized_struct_name(t.subrange(1, e)), struct_field_count(t)),
            ),
            None => None,
        }
    }
}

fn named_struct_exec(line: &[char]) -> (r: Option<(Vec<char>, usize)>)
    ensures
        match r {
            Some((a, n)) => named_struct(line@) == Some((a@, n as nat)),
            None => named_struct(line@) is None,
        },
{
    let t = trim(line);
    if !starts_with_char_exec(t.as_slice(), '%') || !contains_str(t.as_slice(), "= type") {
        return None;
    }
    let pat = chars_of("= type");
    match find(t.as_slice(), pat.as_slice()) {
        Some(e) => {
            proof {
                lemma_find_from(t@, "= type"@, 0);
                reveal_strlit("= type");
            }
            assert(t@.subrange(e as int, e + pat@.len()) == pat@);
            assert(t@.subrange(e as int, e + pat@.len())[0] == t@[e as int]);
            assert(e >= 1);
            let raw = slice_of(t.as_slice(), 1, e);
            let name = normalize_struct_name(raw.as_slice());
            Some((name, count_struct_fields(t.as_slice())))
        },
        None => None,
    }
}

/// The struct types declared in the IR text (`%Name = type { ... }` lines),
/// in order, each with its normalized name and field count.
pub open spec fn named_structs(ir: Seq<char>) -> Seq<(Seq<char>, nat)> {
    collect_some(lines_of(ir), |l: Seq<char>| named_struct(l))
}

/// Every `%Name = type { ... }` declaration of the IR text with its field
/// count.
pub fn extract_named_structs(ir: &str) -> (r: Vec<(String, usize)>)
    ensures
        r@.map_values(|e: (String, usize)| (e.0@, e.1 as nat)) == named_structs(ir@),
{
    let ls = lines(chars_of(ir).as_slice());
    let ghost lv = ls@.map_values(|l: Vec<char>| l@);
    let ghost f = |l: Seq<char>| named_struct(l);
    let mut out: Vec<(String, usize)> = Vec::new();
    let mut i: usize = 0;
    while i < ls.len()
        invariant
            i <= ls@.len(),
            lv == ls@.map_values(|l: Vec<char>| l@),
            lv == lines_of(ir@),
            f == (|l: Seq<char>| named_struct(l)),
            out@.map_values(|e: (String, usize)| (e.0@, e.1 as nat)) == collect_some(
                lv.take(i as int),
                f,
            ),
        decreases ls@.len() - i,
    {
        proof { lemma_collect_some_step(lv, i as int, f); }
        assert(lv[i as int] == ls@[i as int]@);
        match named_struct_exec(ls[i].as_slice()) {
            Some((name, n)) => {
                let ghost before = out@;
                out.push((crate::text::string_from(name.as_slice()), n));
                assert(out@.map_values(|e: (String, usize)| (e.0@, e.1 as nat)) =~= before.map_values(
                    |e: (String, usize)| (e.0@, e.1 as nat),
                ).push((name@, n as nat)));
            },
            None => {},
        }
        i += 1;
    }
    assert(lv.take(lv.len() as int) == lv);
    out
}

/// Names of LLVM intrinsics start with `llvm.`.
pub open spec fn llvm_intrinsic(name: Seq<char>) -> bool {
    crate::text::starts_with_spec(name, "llvm."@)
}

/// Whether a function name starts with `llvm.`.
pub fn has_llvm_prefix(name: &[char]) -> (b: bool)
    ensures
        b == llvm_intrinsic(name@),
{
    crate::text::starts_with_str(name, "llvm.")
}

/// Functions the compiler generates for initialization and its runtime
/// (`__init_prg`, `__user_init_prg`, ...) begin with a double underscore,
/// which no IEC 61131-3 identifier can.
pub open spec fn compiler_helper(name: Seq<char>) -> bool {
    crate::text::starts_with_spec(name, "__"@)
}

/// Functions that own no program struct: LLVM intrinsics and the
/// compiler's init and runtime helpers.
pub open spec fn skipped_function(name: Seq<char>) -> bool {
    llvm_intrinsic(name) || compiler_helper(name)
}

/// Whether a function is to be skipped: an LLVM intrinsic (`llvm.` prefix)
/// or an init/runtime helper (`__` prefix).
pub fn is_llvm_intrinsic(name: &[char]) -> (b: bool)
    ensures
        b == skipped_function(name@),
{
    crate::text::starts_with_str(name, "llvm.") || crate::text::starts_with_str(name, "__")
}

/// A character that ends a typed-pointer struct name: `*`, space, `,` or `)`.
pub open spec fn pointer_name_stop(c: char) -> bool {
    c == '*' || c == ' ' || c == ',' || c == ')'
}

/// Index of the first stop character in `s`, or its length.
pub open spec fn pointer_name_end(s: Seq<char>) -> nat
    decreases s.len(),
{
    if s.len() == 0 {
        0
    } else if pointer_name_stop(s[0]) {
        0
    } else {
        1 + pointer_name_end(s.drop_first())
    }
}

/// The struct name of a typed pointer argument `(%Name*` on a line, trimmed
/// and without surrounding double quotes.
pub open spec fn typed_pointer_name(line: Seq<char>) -> Option<Seq<char>> {
    match find_spec(line, "(%"@) {
        Some(k) => {
            let rest = line.skip(k + 2);
            let name = trim_spec(rest.take(pointer_name_end(rest) as int));
            Some(
                crate::text::strip_suffix_chars(crate::text::strip_prefix_chars(name, '"'), '"'),
            )
        },
        None => None,
    }
}

/// The first line of `ls` that starts with `define` and mentions `needle`.
pub open spec fn first_define_line(ls: Seq<Seq<char>>, needle: Seq<char>) -> Option<Seq<char>>
    decreases ls.len(),
{
    if ls.len() == 0 {
        None
    } else if crate::text::starts_with_spec(ls[0], "define"@) && contains_spec(ls[0], needle) {
        Some(ls[0])
    } else {
        first_define_line(ls.drop_first(), needle)
    }
}

/// The struct that the definition of `@func` takes as its typed pointer
/// argument, when it names one other than `func` itself.
pub open spec fn struct_name_in_ir(ir: Seq<char>, func: Seq<char>) -> Option<Seq<char>> {
    match first_define_line(lines_of(ir), seq!['@'] + func) {
        Some(l) => match typed_pointer_name(l) {
            Some(c) => if c.len() > 0 && c != func {
                Some(c)
            } else {
                None
            },
            None => None,
        },
        None => None,
    }
}

fn typed_pointer_name_exec(line: &[char]) -> (r: Option<Vec<char>>)
    ensures
        match r {
            Some(v) => typed_pointer_name(line@) == Some(v@),
            None => typed_pointer_name(line@) is None,
        },
{
    let pat = chars_of("(%");
    let k = match find(line, pat.as_slice()) {
        Some(k) => k,
        None => return None,
    };
    proof {
        lemma_find_from(line@, "(%"@, 0);
        reveal_strlit("(%");
    }
    let n = line.len();
    assert(k + 2 <= n);
    let rest = slice_of(line, k + 2, n);
    let mut e: usize = 0;
    assert(rest@.skip(0) == rest@);
    while e < rest.len() && !(rest[e] == '*' || rest[e] == ' ' || rest[e] == ',' || rest[e] == ')')
        invariant
            e <= rest@.len(),
            pointer_name_end(rest@) == e + pointer_name_end(rest@.skip(e as int)),
        decreases rest@.len() - e,
    {
        assert(rest@.skip(e as int).drop_first() == rest@.skip(e + 1));
        e += 1;
    }
    proof {
        if e < rest@.len() {
            assert(rest@.skip(e as int)[0] == rest@[e as int]);
        }
    }
    let head = slice_of(rest.as_slice(), 0, e);
    let name = trim(head.as_slice());
    Some(crate::text::trim_char(name.as_slice(), '"'))
}

/// The struct a function definition line takes as typed pointer argument
/// (`define void @f(%S* %0)` gives `S`), for IR that still has typed
/// pointers; `None` when the first definition of `@func` names none, or
/// names `func` itself.
pub fn find_struct_name_in_ir(ir_text: &str, func_name: &str) -> (r: Option<String>)
    ensures
        match r {
            Some(v) => struct_name_in_ir(ir_text@, func_name@) == Some(v@),
            None => struct_name_in_ir(ir_text@, func_name@) is None,
        },
{
    let mut needle: Vec<char> = vec!['@'];
    let fc = chars_of(func_name);
    crate::text::push_all(&mut needle, fc.as_slice());
    let ls = lines(chars_of(ir_text).as_slice());
    let ghost lv = ls@.map_values(|l: Vec<char>| l@);
    let mut i: usize = 0;
    assert(lv.skip(0) == lv);
    while i < ls.len()
        invariant
            i <= ls@.len(),
            lv == ls@.map_values(|l: Vec<char>| l@),
            lv == lines_of(ir_text@),
            needle@ == seq!['@'] + func_name@,
            fc@ == func_name@,
            first_define_line(lv, needle@) == first_define_line(lv.skip(i as int), needle@),
        decreases ls@.len() - i,
    {
        assert(lv.skip(i as int)[0] == ls@[i as int]@);
        assert(lv.skip(i as int).drop_first() == lv.skip(i + 1));
        let line = ls[i].as_slice();
        if crate::text::starts_with_str(line, "define") && crate::text::find(
            line,
            needle.as_slice(),
        ).is_some() {
            return match typed_pointer_name_exec(line) {
                Some(c) => if c.len() > 0 && !crate::text::chars_eq(c.as_slice(), fc.as_slice()) {
                    Some(crate::text::string_from(c.as_slice()))
                } else {
                    None
                },
                None => None,
            };
        }
        i += 1;
    }
    None
}

} // verus!
