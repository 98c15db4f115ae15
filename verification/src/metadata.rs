//! Scanning of LLVM IR text: numbered metadata, debug names of variables and
//! struct members, SSA names and named struct types.
use vstd::prelude::*;
use crate::ir_names::{normalize_struct_name, normalized_struct_name};
use crate::text::{
    all_digits, chars_of, collect_some, lemma_collect_some_step, contains_spec, contains_str, find, find_spec, find_str, is_alnum,
    is_alnum_exec, is_digit, is_digit_exec, lemma_find_from, lines, lines_of, slice_of,
    split_once, split_once_spec, starts_with_char, starts_with_char_exec, starts_with_spec,
    starts_with_str, string_from, strip_prefixes, trim, trim_spec, trim_start, trim_start_matches,
    trim_start_spec,
};

verus! {

// ---------------------------------------------------------------------------
// A map from text keys to text values, built in order; a later entry for a
// key replaces an earlier one.
// ---------------------------------------------------------------------------

/// Text-keyed map kept as its entries in insertion order.
#[derive(Debug, Clone)]
pub struct TextMap {
    pub entries: Vec<(String, String)>,
}

/// The entries of a map as character sequences.
pub open spec fn entries_view(es: Seq<(String, String)>) -> Seq<(Seq<char>, Seq<char>)> {
    es.map_values(|e: (String, String)| (e.0@, e.1@))
}

/// The value of the last entry for `key`.
pub open spec fn lookup<V>(es: Seq<(Seq<char>, V)>, key: Seq<char>) -> Option<V>
    decreases es.len(),
{
    if es.len() == 0 {
        None
    } else if es.last().0 == key {
        Some(es.last().1)
    } else {
        lookup(es.drop_last(), key)
    }
}

impl TextMap {
    /// The entries as character sequences.
    pub open spec fn view_entries(&self) -> Seq<(Seq<char>, Seq<char>)> {
        entries_view(self.entries@)
    }

    /// The value stored last for `key`.
    pub fn get(&self, key: &[char]) -> (r: Option<String>)
        ensures
            match r {
                Some(v) => lookup(self.view_entries(), key@) == Some(v@),
                None => lookup(self.view_entries(), key@) is None,
            },
    {
        let mut i = self.entries.len();
        assert(self.entries@.take(i as int) == self.entries@);
        while i > 0
            invariant
                i <= self.entries@.len(),
                lookup(self.view_entries(), key@) == lookup(
                    entries_view(self.entries@.take(i as int)),
                    key@,
                ),
            decreases i,
        {
            let k = chars_of(self.entries[i - 1].0.as_str());
            assert(entries_view(self.entries@.take(i as int)).drop_last() == entries_view(
                self.entries@.take(i - 1),
            ));
            if crate::text::chars_eq(k.as_slice(), key) {
                return Some(self.entries[i - 1].1.clone());
            }
            i -= 1;
        }
        None
    }
}

fn push_entry(m: &mut Vec<(String, String)>, k: &[char], v: &[char])
    ensures
        entries_view(final(m)@) == entries_view(old(m)@).push((k@, v@)),
{
    m.push((string_from(k), string_from(v)));
    assert(entries_view(m@) =~= entries_view(old(m)@).push((k@, v@)));
}

// ---------------------------------------------------------------------------
// Numbered metadata
// ---------------------------------------------------------------------------

/// The numbered metadata entry a line defines, `!N = <rhs>`.
pub open spec fn metadata_entry(line: Seq<char>) -> Option<(Seq<char>, Seq<char>)> {
    let t = trim_spec(line);
    if starts_with_char(t, '!') {
        match split_once_spec(t, " = "@) {
            Some((l, r)) => if l.len() > 1 && all_digits(l.drop_first()) {
                Some((l, r))
            } else {
                None
            },
            None => None,
        }
    } else {
        None
    }
}

/// The numbered metadata entries of some lines, in order.
pub open spec fn metadata_entries(ls: Seq<Seq<char>>) -> Seq<(Seq<char>, Seq<char>)>
    decreases ls.len(),
{
    if ls.len() == 0 {
        Seq::empty()
    } else {
        metadata_entries(ls.drop_last()) + match metadata_entry(ls.last()) {
            Some(e) => seq![e],
            None => Seq::empty(),
        }
    }
}

fn all_digits_from(s: &[char], from: usize) -> (b: bool)
    requires
        from <= s@.len(),
    ensures
        b == all_digits(s@.skip(from as int)),
{
    let mut i = from;
    while i < s.len()
        invariant
            from <= i <= s@.len(),
            forall|k: int| from <= k < i ==> is_digit(s@[k]),
        decreases s@.len() - i,
    {
        if !is_digit_exec(s[i]) {
            assert(s@.skip(from as int)[i - from] == s@[i as int]);
            return false;
        }
        i += 1;
    }
    assert forall|k: int| 0 <= k < s@.skip(from as int).len() implies is_digit(
        #[trigger] s@.skip(from as int)[k],
    ) by {
        assert(s@.skip(from as int)[k] == s@[from + k]);
    }
    true
}

fn metadata_entry_exec(line: &[char]) -> (r: Option<(Vec<char>, Vec<char>)>)
    ensures
        match r {
            Some((a, b)) => metadata_entry(line@) == Some((a@, b@)),
            None => metadata_entry(line@) is None,
        },
{
    let t = trim(line);
    if !starts_with_char_exec(t.as_slice(), '!') {
        return None;
    }
    match split_once(t.as_slice(), " = ") {
        Some((l, r)) => {
            if l.len() > 1 && all_digits_from(l.as_slice(), 1) {
                assert(l@.skip(1) == l@.drop_first());
                Some((l, r))
            } else {
                assert(l@.len() > 1 ==> l@.skip(1) == l@.drop_first());
                None
            }
        },
        None => None,
    }
}

/// Every numbered metadata entry `!N = ...` of the IR text, keyed by `!N`.
pub fn extract_metadata_map(ir: &str) -> (m: TextMap)
    ensures
        m.view_entries() == metadata_entries(lines_of(ir@)),
{
    let ls = lines(chars_of(ir).as_slice());
    let ghost lv = ls@.map_values(|l: Vec<char>| l@);
    let mut entries: Vec<(String, String)> = Vec::new();
    let mut i: usize = 0;
    while i < ls.len()
        invariant
            i <= ls@.len(),
            lv == ls@.map_values(|l: Vec<char>| l@),
            lv == lines_of(ir@),
            entries_view(entries@) == metadata_entries(lv.take(i as int)),
        decreases ls@.len() - i,
    {
        assert(lv.take(i + 1).drop_last() == lv.take(i as int));
        assert(lv.take(i + 1).last() == ls@[i as int]@);
        match metadata_entry_exec(ls[i].as_slice()) {
            Some((k, v)) => {
                push_entry(&mut entries, k.as_slice(), v.as_slice());
            },
            None => {},
        }
        i += 1;
    }
    assert(lv.take(lv.len() as int) == lv);
    TextMap { entries }
}

// ---------------------------------------------------------------------------
// Small extractors
// ---------------------------------------------------------------------------

/// The text between the first two double quotes after `key`.
pub open spec fn quoted_arg(text: Seq<char>, key: Seq<char>) -> Option<Seq<char>> {
    match find_spec(text, key) {
        None => None,
        Some(k) => {
            let rest = text.skip(k + key.len());
            match find_spec(rest, seq!['"']) {
                None => None,
                Some(q) => {
                    let after = rest.skip(q + 1);
                    match find_spec(after, seq!['"']) {
                        None => None,
                        Some(e) => Some(after.take(e)),
                    }
                },
            }
        },
    }
}

/// The value of a quoted argument, e.g. `LANG` for key `name:` in
/// `!DILocalVariable(name: "LANG", ...)`.
pub fn extract_quoted_arg(text: &[char], key: &str) -> (r: Option<Vec<char>>)
    ensures
        match r {
            Some(v) => quoted_arg(text@, key@) == Some(v@),
            None => quoted_arg(text@, key@) is None,
        },
{
    let kc = chars_of(key);
    let k = match find(text, kc.as_slice()) {
        Some(k) => k,
        None => return None,
    };
    proof { lemma_find_from(text@, key@, 0); }
    let n = text.len();
    let kl = kc.len();
    assert(k + kl <= n);
    let rest = slice_of(text, k + kl, n);
    let quote: Vec<char> = vec!['"'];
    assert(quote@ == seq!['"']);
    let q = match find(rest.as_slice(), quote.as_slice()) {
        Some(q) => q,
        None => return None,
    };
    proof { lemma_find_from(rest@, seq!['"'], 0); }
    let after = slice_of(rest.as_slice(), q + 1, rest.len());
    let e = match find(after.as_slice(), quote.as_slice()) {
        Some(e) => e,
        None => return None,
    };
    proof { lemma_find_from(after@, seq!['"'], 0); }
    let r = slice_of(after.as_slice(), 0, e);
    assert(r@ == after@.take(e as int));
    Some(r)
}

/// The ASCII digits at the front of `s`.
pub open spec fn leading_digits(s: Seq<char>) -> Seq<char>
    decreases s.len(),
{
    if s.len() > 0 && is_digit(s[0]) {
        seq![s[0]] + leading_digits(s.drop_first())
    } else {
        Seq::empty()
    }
}

pub proof fn lemma_leading_digits_len(s: Seq<char>)
    ensures
        leading_digits(s).len() <= s.len(),
        leading_digits(s) == s.take(leading_digits(s).len() as int),
    decreases s.len(),
{
    if s.len() > 0 && is_digit(s[0]) {
        lemma_leading_digits_len(s.drop_first());
        assert(s.take(leading_digits(s).len() as int) =~= seq![s[0]] + s.drop_first().take(
            leading_digits(s.drop_first()).len() as int,
        ));
    } else {
        assert(s.take(0) =~= Seq::<char>::empty());
    }
}

/// Number of ASCII digits at the front of `s[from..]`.
fn leading_digit_count(s: &[char], from: usize) -> (n: usize)
    requires
        from <= s@.len(),
    ensures
        from + n <= s@.len(),
        n == leading_digits(s@.skip(from as int)).len(),
{
    let mut j = from;
    while j < s.len() && is_digit_exec(s[j])
        invariant
            from <= j <= s@.len(),
            leading_digits(s@.skip(from as int)) == s@.subrange(from as int, j as int)
                + leading_digits(s@.skip(j as int)),
        decreases s@.len() - j,
    {
        assert(s@.skip(j as int).drop_first() == s@.skip(j + 1));
        assert(s@.subrange(from as int, j + 1) == s@.subrange(from as int, j as int) + seq![s@[j as int]]);
        j += 1;
    }
    assert(leading_digits(s@.skip(j as int)).len() == 0);
    assert(s@.subrange(from as int, j as int).len() == j - from);
    j - from
}

/// The metadata reference `!N` right after `key` (leading whitespace aside).
pub open spec fn metadata_ref_after(text: Seq<char>, key: Seq<char>) -> Option<Seq<char>> {
    match find_spec(text, key) {
        None => None,
        Some(k) => {
            let rest = trim_start_spec(text.skip(k + key.len()));
            if starts_with_char(rest, '!') {
                let d = leading_digits(rest.drop_first());
                if d.len() > 0 {
                    Some(seq!['!'] + d)
                } else {
                    None
                }
            } else {
                None
            }
        },
    }
}

/// The metadata reference following `key`, e.g. `!12` for key `elements:`
/// in `elements: !12,`.
pub fn extract_metadata_ref_after(text: &[char], key: &str) -> (r: Option<Vec<char>>)
    ensures
        match r {
            Some(v) => metadata_ref_after(text@, key@) == Some(v@),
            None => metadata_ref_after(text@, key@) is None,
        },
{
    let kc = chars_of(key);
    let k = match find(text, kc.as_slice()) {
        Some(k) => k,
        None => return None,
    };
    proof { lemma_find_from(text@, key@, 0); }
    let n = text.len();
    let kl = kc.len();
    assert(k + kl <= n);
    let after = slice_of(text, k + kl, n);
    let rest = trim_start(after.as_slice());
    if !starts_with_char_exec(rest.as_slice(), '!') {
        return None;
    }
    let cnt = leading_digit_count(rest.as_slice(), 1);
    let rl = rest.len();
    assert(1 + cnt <= rl);
    assert(rest@.skip(1) == rest@.drop_first());
    if cnt == 0 {
        return None;
    }
    proof { lemma_leading_digits_len(rest@.drop_first()); }
    let r = slice_of(rest.as_slice(), 0, 1 + cnt);
    assert(r@ =~= seq!['!'] + leading_digits(rest@.drop_first()));
    Some(r)
}

/// The metadata references `!N` of `s`, in order.
pub open spec fn metadata_refs(s: Seq<char>) -> Seq<Seq<char>>
    decreases s.len(),
{
    if s.len() == 0 {
        Seq::empty()
    } else if s[0] == '!' {
        let d = leading_digits(s.drop_first());
        proof { lemma_leading_digits_len(s.drop_first()); }
        (if d.len() > 0 {
            seq![seq!['!'] + d]
        } else {
            Seq::empty()
        }) + metadata_refs(s.skip(1 + d.len() as int))
    } else {
        metadata_refs(s.drop_first())
    }
}

/// Every metadata reference `!N` in `text`, in order.
pub fn extract_metadata_refs(text: &[char]) -> (refs: Vec<Vec<char>>)
    ensures
        refs@.map_values(|r: Vec<char>| r@) == metadata_refs(text@),
{
    let mut refs: Vec<Vec<char>> = Vec::new();
    let mut i: usize = 0;
    assert(text@.skip(0) == text@);
    while i < text.len()
        invariant
            i <= text@.len(),
            refs@.map_values(|r: Vec<char>| r@) + metadata_refs(text@.skip(i as int)) == metadata_refs(
                text@,
            ),
        decreases text@.len() - i,
    {
        let ghost s = text@.skip(i as int);
        if text[i] == '!' {
            let cnt = leading_digit_count(text, i + 1);
            assert(s.drop_first() == text@.skip(i + 1));
            assert(s.skip(1 + cnt) == text@.skip(i + 1 + cnt));
            if cnt > 0 {
                proof { lemma_leading_digits_len(text@.skip(i + 1)); }
                let r = slice_of(text, i, i + 1 + cnt);
                assert(r@ =~= seq!['!'] + leading_digits(s.drop_first()));
                let ghost old_refs = refs@;
                refs.push(r);
                assert(refs@.map_values(|r: Vec<char>| r@) == old_refs.map_values(|r: Vec<char>| r@).push(r@));
            }
            i = i + 1 + cnt;
        } else {
            assert(s.drop_first() == text@.skip(i + 1));
            i += 1;
        }
    }
    assert(text@.skip(i as int) == Seq::<char>::empty());
    refs
}

// ---------------------------------------------------------------------------
// SSA names
// ---------------------------------------------------------------------------

/// A character of an SSA name: ASCII letter or digit, `_` or `.`.
pub open spec fn ssa_char(c: char) -> bool {
    is_alnum(c) || c == '_' || c == '.'
}

/// Whether `c` can be part of an SSA name.
pub fn is_ssa_char(c: char) -> (b: bool)
    ensures
        b == ssa_char(c),
{
    is_alnum_exec(c) || c == '_' || c == '.'
}

/// The SSA-name characters at the front of `s`.
pub open spec fn ssa_run(s: Seq<char>) -> Seq<char>
    decreases s.len(),
{
    if s.len() > 0 && ssa_char(s[0]) {
        seq![s[0]] + ssa_run(s.drop_first())
    } else {
        Seq::empty()
    }
}

/// The first `%name` token of `s`.
pub open spec fn first_ssa(s: Seq<char>) -> Option<Seq<char>>
    decreases s.len(),
{
    if s.len() == 0 {
        None
    } else if s[0] == '%' && ssa_run(s.drop_first()).len() > 0 {
        Some(seq!['%'] + ssa_run(s.drop_first()))
    } else {
        first_ssa(s.drop_first())
    }
}

proof fn lemma_ssa_run_len(s: Seq<char>)
    ensures
        ssa_run(s).len() <= s.len(),
        ssa_run(s) == s.take(ssa_run(s).len() as int),
    decreases s.len(),
{
    if s.len() > 0 && ssa_char(s[0]) {
        lemma_ssa_run_len(s.drop_first());
        assert(s.take(ssa_run(s).len() as int) =~= seq![s[0]] + s.drop_first().take(
            ssa_run(s.drop_first()).len() as int,
        ));
    } else {
        assert(s.take(0) =~= Seq::<char>::empty());
    }
}

fn ssa_run_count(s: &[char], from: usize) -> (n: usize)
    requires
        from <= s@.len(),
    ensures
        from + n <= s@.len(),
        n == ssa_run(s@.skip(from as int)).len(),
{
    let mut j = from;
    while j < s.len() && is_ssa_char(s[j])
        invariant
            from <= j <= s@.len(),
            ssa_run(s@.skip(from as int)).len() == (j - from) + ssa_run(s@.skip(j as int)).len(),
        decreases s@.len() - j,
    {
        assert(s@.skip(j as int).drop_first() == s@.skip(j + 1));
        j += 1;
    }
    j - from
}

/// The first `%name` token of a line.
pub fn first_ssa_token(line: &[char]) -> (r: Option<Vec<char>>)
    ensures
        match r {
            Some(v) => first_ssa(line@) == Some(v@),
            None => first_ssa(line@) is None,
        },
{
    let mut i: usize = 0;
    assert(line@.skip(0) == line@);
    while i < line.len()
        invariant
            i <= line@.len(),
            first_ssa(line@) == first_ssa(line@.skip(i as int)),
        decreases line@.len() - i,
    {
        let ghost s = line@.skip(i as int);
        assert(s.drop_first() == line@.skip(i + 1));
        if line[i] == '%' {
            let n = ssa_run_count(line, i + 1);
            if n > 0 {
                proof { lemma_ssa_run_len(line@.skip(i + 1)); }
                let r = slice_of(line, i, i + 1 + n);
                assert(r@ =~= seq!['%'] + ssa_run(s.drop_first()));
                return Some(r);
            }
        }
        i += 1;
    }
    None
}


// ---------------------------------------------------------------------------
// SSA name -> source variable name
// ---------------------------------------------------------------------------

/// A line that calls `llvm.dbg.value` or `llvm.dbg.declare`.
pub open spec fn is_dbg_call_line(line: Seq<char>) -> bool {
    contains_spec(line, "llvm.dbg.value"@) || contains_spec(line, "llvm.dbg.declare"@)
}

fn is_dbg_call_line_exec(line: &[char]) -> (b: bool)
    ensures
        b == is_dbg_call_line(line@),
{
    contains_str(line, "llvm.dbg.value") || contains_str(line, "llvm.dbg.declare")
}

/// The name of the local variable a metadata entry describes.
pub open spec fn local_variable_name(rhs: Seq<char>) -> Option<Seq<char>> {
    if contains_spec(rhs, "!DILocalVariable("@) {
        quoted_arg(rhs, "name:"@)
    } else {
        None
    }
}

/// The (SSA name, variable name) pair a debug-intrinsic line establishes:
/// the first SSA name of the line and the variable of the `!N` reference
/// written after `metadata !`, looked up in the metadata entries `md`.
pub open spec fn ssa_alias(md: Seq<(Seq<char>, Seq<char>)>, line: Seq<char>) -> Option<
    (Seq<char>, Seq<char>),
> {
    if !is_dbg_call_line(line) {
        None
    } else {
        match (first_ssa(line), metadata_ref_after_marker(line, "metadata !"@)) {
            (Some(ssa), Some(r)) => match lookup(md, r) {
                Some(rhs) => match local_variable_name(rhs) {
                    Some(n) => Some((ssa, n)),
                    None => None,
                },
                None => None,
            },
            _ => None,
        }
    }
}

/// The aliases of the IR text `ir`, in line order.
pub open spec fn ssa_alias_entries(ir: Seq<char>) -> Seq<(Seq<char>, Seq<char>)> {
    let md = metadata_entries(lines_of(ir));
    collect_some(lines_of(ir), |l: Seq<char>| ssa_alias(md, l))
}

fn ssa_alias_exec(md: &TextMap, line: &[char]) -> (r: Option<(Vec<char>, Vec<char>)>)
    ensures
        match r {
            Some((a, b)) => ssa_alias(md.view_entries(), line@) == Some((a@, b@)),
            None => ssa_alias(md.view_entries(), line@) is None,
        },
{
    if !is_dbg_call_line_exec(line) {
        return None;
    }
    let ssa = match first_ssa_token(line) {
        Some(v) => v,
        None => return None,
    };
    let r = match find_metadata_ref_after_marker(line, "metadata !") {
        Some(v) => v,
        None => return None,
    };
    let rhs = match md.get(r.as_slice()) {
        Some(v) => chars_of(v.as_str()),
        None => return None,
    };
    if !contains_str(rhs.as_slice(), "!DILocalVariable(") {
        return None;
    }
    match extract_quoted_arg(rhs.as_slice(), "name:") {
        Some(n) => Some((ssa, n)),
        None => None,
    }
}

/// SSA name (`%lang`) to source variable name (`LANG`), from the
/// `llvm.dbg.value` / `llvm.dbg.declare` calls of the IR text and the
/// `!DILocalVariable` entries they reference; a later call for the same SSA
/// name wins.
pub fn build_ssa_name_map(ir: &str) -> (m: TextMap)
    ensures
        m.view_entries() == ssa_alias_entries(ir@),
{
    let md = extract_metadata_map(ir);
    let ls = lines(chars_of(ir).as_slice());
    let ghost lv = ls@.map_values(|l: Vec<char>| l@);
    let ghost mdv = md.view_entries();
    let ghost f = |l: Seq<char>| ssa_alias(mdv, l);
    let mut entries: Vec<(String, String)> = Vec::new();
    let mut i: usize = 0;
    while i < ls.len()
        invariant
            i <= ls@.len(),
            lv == ls@.map_values(|l: Vec<char>| l@),
            lv == lines_of(ir@),
            mdv == md.view_entries(),
            mdv == metadata_entries(lines_of(ir@)),
            f == (|l: Seq<char>| ssa_alias(mdv, l)),
            entries_view(entries@) == collect_some(lv.take(i as int), f),
        decreases ls@.len() - i,
    {
        proof { lemma_collect_some_step(lv, i as int, f); }
        assert(lv[i as int] == ls@[i as int]@);
        match ssa_alias_exec(&md, ls[i].as_slice()) {
            Some((k, v)) => {
                push_entry(&mut entries, k.as_slice(), v.as_slice());
            },
            None => {},
        }
        i += 1;
    }
    assert(lv.take(lv.len() as int) == lv);
    TextMap { entries }
}


/// The first run of ASCII digits in `s`.
pub open spec fn first_digit_run(s: Seq<char>) -> Seq<char>
    decreases s.len(),
{
    if s.len() == 0 {
        Seq::empty()
    } else if is_digit(s[0]) {
        leading_digits(s)
    } else {
        first_digit_run(s.drop_first())
    }
}

/// The reference `!N` formed by the first digit run after `marker`.
pub open spec fn metadata_ref_after_marker(text: Seq<char>, marker: Seq<char>) -> Option<
    Seq<char>,
> {
    match find_spec(text, marker) {
        None => None,
        Some(k) => {
            let d = first_digit_run(text.skip(k + marker.len()));
            if d.len() > 0 {
                Some(seq!['!'] + d)
            } else {
                None
            }
        },
    }
}

/// The metadata reference made of the first digits after `marker`, e.g.
/// `!12` for marker `metadata !` in `metadata !12)`.
pub fn find_metadata_ref_after_marker(text: &[char], marker: &str) -> (r: Option<Vec<char>>)
    ensures
        match r {
            Some(v) => metadata_ref_after_marker(text@, marker@) == Some(v@),
            None => metadata_ref_after_marker(text@, marker@) is None,
        },
{
    let mc = chars_of(marker);
    let k = match find(text, mc.as_slice()) {
        Some(k) => k,
        None => return None,
    };
    proof { lemma_find_from(text@, marker@, 0); }
    let n = text.len();
    let ml = mc.len();
    assert(k + ml <= n);
    let mut i = k + ml;
    let ghost rest = text@.skip(i as int);
    assert(text@.skip(i as int) == rest);
    while i < n && !is_digit_exec(text[i])
        invariant
            k + ml <= i <= n,
            n == text@.len(),
            rest == text@.skip(k + ml),
            first_digit_run(rest) == first_digit_run(text@.skip(i as int)),
        decreases n - i,
    {
        assert(text@.skip(i as int).drop_first() == text@.skip(i + 1));
        i += 1;
    }
    let cnt = leading_digit_count(text, i);
    if cnt == 0 {
        proof {
            if i < n {
                assert(text@.skip(i as int)[0] == text@[i as int]);
            }
        }
        return None;
    }
    assert(text@.skip(i as int)[0] == text@[i as int]);
    proof { lemma_leading_digits_len(text@.skip(i as int)); }
    let mut r: Vec<char> = vec!['!'];
    let digits = slice_of(text, i, i + cnt);
    assert(digits@ == text@.skip(i as int).take(cnt as int));
    crate::text::push_all(&mut r, digits.as_slice());
    Some(r)
}

/// The local-variable entry a line declares (`!N = !DILocalVariable(name: "X", ...)`),
/// as (`!N`, `X`).
pub open spec fn dbg_local_entry(line: Seq<char>) -> Option<(Seq<char>, Seq<char>)> {
    let t = trim_spec(line);
    if !starts_with_char(t, '!') || !contains_spec(t, "!DILocalVariable("@) {
        None
    } else {
        match split_once_spec(t, " = "@) {
            Some((lhs, rhs)) => match quoted_arg(rhs, "name:"@) {
                Some(n) => Some((trim_spec(lhs), n)),
                None => None,
            },
            None => None,
        }
    }
}

fn dbg_local_entry_exec(line: &[char]) -> (r: Option<(Vec<char>, Vec<char>)>)
    ensures
        match r {
            Some((a, b)) => dbg_local_entry(line@) == Some((a@, b@)),
            None => dbg_local_entry(line@) is None,
        },
{
    let t = trim(line);
    if !starts_with_char_exec(t.as_slice(), '!') || !contains_str(t.as_slice(), "!DILocalVariable(") {
        return None;
    }
    match split_once(t.as_slice(), " = ") {
        Some((lhs, rhs)) => match extract_quoted_arg(rhs.as_slice(), "name:") {
            Some(n) => Some((trim(lhs.as_slice()), n)),
            None => None,
        },
        None => None,
    }
}

/// The alias a debug-intrinsic line gives, with the variable looked up among
/// the local-variable entries `locals`.
pub open spec fn dbg_value_alias(locals: Seq<(Seq<char>, Seq<char>)>, line: Seq<char>) -> Option<
    (Seq<char>, Seq<char>),
> {
    if !is_dbg_call_line(line) {
        None
    } else {
        match (first_ssa(line), metadata_ref_after_marker(line, "metadata !"@)) {
            (Some(ssa), Some(r)) => match lookup(locals, r) {
                Some(n) => Some((ssa, n)),
                None => None,
            },
            _ => None,
        }
    }
}

/// The (SSA name, variable name) aliases of the IR text, in line order.
pub open spec fn dbg_value_alias_entries(ir: Seq<char>) -> Seq<(Seq<char>, Seq<char>)> {
    let locals = collect_some(lines_of(ir), |l: Seq<char>| dbg_local_entry(l));
    collect_some(lines_of(ir), |l: Seq<char>| dbg_value_alias(locals, l))
}

fn dbg_value_alias_exec(locals: &TextMap, line: &[char]) -> (r: Option<(Vec<char>, Vec<char>)>)
    ensures
        match r {
            Some((a, b)) => dbg_value_alias(locals.view_entries(), line@) == Some((a@, b@)),
            None => dbg_value_alias(locals.view_entries(), line@) is None,
        },
{
    if !is_dbg_call_line_exec(line) {
        return None;
    }
    let ssa = first_ssa_token(line);
    let local_ref = find_metadata_ref_after_marker(line, "metadata !");
    match (ssa, local_ref) {
        (Some(ssa), Some(r)) => match locals.get(r.as_slice()) {
            Some(n) => Some((ssa, chars_of(n.as_str()))),
            None => None,
        },
        _ => None,
    }
}

/// SSA name to source variable name, from the `!DILocalVariable` lines of the
/// IR text and the debug-intrinsic calls that reference them by the first
/// number after `metadata !`; a later call for the same SSA name wins.
pub fn extract_dbg_value_aliases(ir: &str) -> (m: TextMap)
    ensures
        m.view_entries() == dbg_value_alias_entries(ir@),
{
    let ls = lines(chars_of(ir).as_slice());
    let ghost lv = ls@.map_values(|l: Vec<char>| l@);
    let ghost fl = |l: Seq<char>| dbg_local_entry(l);
    let mut locals: Vec<(String, String)> = Vec::new();
    let mut i: usize = 0;
    while i < ls.len()
        invariant
            i <= ls@.len(),
            lv == ls@.map_values(|l: Vec<char>| l@),
            lv == lines_of(ir@),
            fl == (|l: Seq<char>| dbg_local_entry(l)),
            entries_view(locals@) == collect_some(lv.take(i as int), fl),
        decreases ls@.len() - i,
    {
        proof { lemma_collect_some_step(lv, i as int, fl); }
        assert(lv[i as int] == ls@[i as int]@);
        match dbg_local_entry_exec(ls[i].as_slice()) {
            Some((k, v)) => {
                push_entry(&mut locals, k.as_slice(), v.as_slice());
            },
            None => {},
        }
        i += 1;
    }
    assert(lv.take(lv.len() as int) == lv);
    let locals = TextMap { entries: locals };
    let ghost lcv = locals.view_entries();
    let ghost fa = |l: Seq<char>| dbg_value_alias(lcv, l);
    let mut entries: Vec<(String, String)> = Vec::new();
    let mut i: usize = 0;
    while i < ls.len()
        invariant
            i <= ls@.len(),
            lv == ls@.map_values(|l: Vec<char>| l@),
            lv == lines_of(ir@),
            lcv == locals.view_entries(),
            lcv == collect_some(lines_of(ir@), |l: Seq<char>| dbg_local_entry(l)),
            fa == (|l: Seq<char>| dbg_value_alias(lcv, l)),
            entries_view(entries@) == collect_some(lv.take(i as int), fa),
        decreases ls@.len() - i,
    {
        proof { lemma_collect_some_step(lv, i as int, fa); }
        assert(lv[i as int] == ls@[i as int]@);
        match dbg_value_alias_exec(&locals, ls[i].as_slice()) {
            Some((k, v)) => {
                push_entry(&mut entries, k.as_slice(), v.as_slice());
            },
            None => {},
        }
        i += 1;
    }
    TextMap { entries }
}


// ---------------------------------------------------------------------------
// Struct member names from debug metadata
// ---------------------------------------------------------------------------

/// Struct name to member names, kept as entries in the order they were found;
/// a later entry for a name replaces an earlier one.
#[derive(Debug, Clone)]
pub struct FieldNameMap {
    pub entries: Vec<(String, Vec<String>)>,
}

/// The character sequences of a list of strings.
pub open spec fn strings_view(v: Seq<String>) -> Seq<Seq<char>> {
    v.map_values(|s: String| s@)
}

impl FieldNameMap {
    /// The entries as character sequences.
    pub open spec fn view_entries(&self) -> Seq<(Seq<char>, Seq<Seq<char>>)> {
        self.entries@.map_values(|e: (String, Vec<String>)| (e.0@, strings_view(e.1@)))
    }

    /// The member names stored last for `name`.
    pub fn get(&self, name: &[char]) -> (r: Option<Vec<String>>)
        ensures
            match r {
                Some(v) => lookup(self.view_entries(), name@) == Some(strings_view(v@)),
                None => lookup(self.view_entries(), name@) is None,
            },
    {
        let mut i = self.entries.len();
        let ghost ev = self.view_entries();
        assert(ev.take(i as int) == ev);
        while i > 0
            invariant
                i <= self.entries@.len(),
                ev == self.view_entries(),
                lookup(ev, name@) == lookup(ev.take(i as int), name@),
            decreases i,
        {
            assert(ev.take(i as int).drop_last() == ev.take(i - 1));
            let k = chars_of(self.entries[i - 1].0.as_str());
            if crate::text::chars_eq(k.as_slice(), name) {
                let v = clone_strings(&self.entries[i - 1].1);
                return Some(v);
            }
            i -= 1;
        }
        None
    }
}

/// A copy of a list of strings.
pub fn clone_strings(v: &Vec<String>) -> (r: Vec<String>)
    ensures
        strings_view(r@) == strings_view(v@),
{
    let mut r: Vec<String> = Vec::new();
    let mut i: usize = 0;
    while i < v.len()
        invariant
            i <= v@.len(),
            strings_view(r@) == strings_view(v@.take(i as int)),
        decreases v@.len() - i,
    {
        let s = string_from(chars_of(v[i].as_str()).as_slice());
        r.push(s);
        i += 1;
        assert(strings_view(v@.take(i as int)) =~= strings_view(v@.take(i - 1)).push(v@[i - 1]@));
        assert(strings_view(r@) =~= strings_view(r@.drop_last()).push(r@.last()@));
    }
    assert(v@.take(v@.len() as int) == v@);
    r
}

/// Entry `i` is the last one with its key, so it is the one a map keeps.
pub open spec fn live_entry<V>(es: Seq<(Seq<char>, V)>, i: int) -> bool {
    forall|j: int| i < j < es.len() ==> #[trigger] es[j].0 != es[i].0
}

/// The name of a struct member that metadata reference `r` points to.
pub open spec fn member_name(md: Seq<(Seq<char>, Seq<char>)>, r: Seq<char>) -> Option<Seq<char>> {
    match lookup(md, r) {
        Some(m) => if contains_spec(m, "!DIDerivedType("@) && contains_spec(m, "DW_TAG_member"@) {
            quoted_arg(m, "name:"@)
        } else {
            None
        },
        None => None,
    }
}

/// The struct name and member names described by a composite-type entry
/// `rhs`.  With `with_class`, class types count too and the name is fully
/// normalized; without, only structure types count and only the
/// `struct.`/`class.` prefixes are removed.
pub open spec fn composite_fields(
    md: Seq<(Seq<char>, Seq<char>)>,
    rhs: Seq<char>,
    with_class: bool,
) -> Option<(Seq<char>, Seq<Seq<char>>)> {
    if !contains_spec(rhs, "!DICompositeType("@) {
        None
    } else if !(contains_spec(rhs, "DW_TAG_structure_type"@) || (with_class && contains_spec(
        rhs,
        "DW_TAG_class_type"@,
    ))) {
        None
    } else {
        match quoted_arg(rhs, "name:"@) {
            None => None,
            Some(raw) => {
                let name = if with_class {
                    normalized_struct_name(raw)
                } else {
                    strip_prefixes(strip_prefixes(raw, "struct."@), "class."@)
                };
                match metadata_ref_after(rhs, "elements:"@) {
                    None => None,
                    Some(er) => match lookup(md, er) {
                        None => None,
                        Some(el) => {
                            let fields = collect_some(
                                metadata_refs(el),
                                |r: Seq<char>| member_name(md, r),
                            );
                            if fields.len() > 0 {
                                Some((name, fields))
                            } else {
                                None
                            }
                        },
                    },
                }
            },
        }
    }
}

/// The (struct, members) entries of the metadata `md`, one per entry that
/// the metadata map keeps, in order.
pub open spec fn debug_struct_fields(md: Seq<(Seq<char>, Seq<char>)>, with_class: bool) -> Seq<
    (Seq<char>, Seq<Seq<char>>),
> {
    collect_some(
        Seq::new(md.len(), |i: int| i),
        |i: int|
            if live_entry(md, i) {
                composite_fields(md, md[i].1, with_class)
            } else {
                None
            },
    )
}

fn member_name_exec(md: &TextMap, r: &[char]) -> (n: Option<String>)
    ensures
        match n {
            Some(v) => member_name(md.view_entries(), r@) == Some(v@),
            None => member_name(md.view_entries(), r@) is None,
        },
{
    let m = match md.get(r) {
        Some(m) => chars_of(m.as_str()),
        None => return None,
    };
    if contains_str(m.as_slice(), "!DIDerivedType(") && contains_str(m.as_slice(), "DW_TAG_member") {
        match extract_quoted_arg(m.as_slice(), "name:") {
            Some(v) => Some(string_from(v.as_slice())),
            None => None,
        }
    } else {
        None
    }
}

fn composite_fields_exec(md: &TextMap, rhs: &[char], with_class: bool) -> (r: Option<
    (Vec<char>, Vec<String>),
>)
    ensures
        match r {
            Some((a, b)) => composite_fields(md.view_entries(), rhs@, with_class) == Some(
                (a@, strings_view(b@)),
            ),
            None => composite_fields(md.view_entries(), rhs@, with_class) is None,
        },
{
    if !contains_str(rhs, "!DICompositeType(") {
        return None;
    }
    if !(contains_str(rhs, "DW_TAG_structure_type") || (with_class && contains_str(
        rhs,
        "DW_TAG_class_type",
    ))) {
        return None;
    }
    let raw = match extract_quoted_arg(rhs, "name:") {
        Some(v) => v,
        None => return None,
    };
    let name = if with_class {
        normalize_struct_name(raw.as_slice())
    } else {
        let a = trim_start_matches(raw.as_slice(), "struct.");
        trim_start_matches(a.as_slice(), "class.")
    };
    let er = match extract_metadata_ref_after(rhs, "elements:") {
        Some(v) => v,
        None => return None,
    };
    let el = match md.get(er.as_slice()) {
        Some(v) => chars_of(v.as_str()),
        None => return None,
    };
    let refs = extract_metadata_refs(el.as_slice());
    let ghost rv = refs@.map_values(|r: Vec<char>| r@);
    let ghost mdv = md.view_entries();
    let ghost f = |r: Seq<char>| member_name(mdv, r);
    let mut fields: Vec<String> = Vec::new();
    let mut i: usize = 0;
    while i < refs.len()
        invariant
            i <= refs@.len(),
            rv == refs@.map_values(|r: Vec<char>| r@),
            mdv == md.view_entries(),
            f == (|r: Seq<char>| member_name(mdv, r)),
            strings_view(fields@) == collect_some(rv.take(i as int), f),
        decreases refs@.len() - i,
    {
        proof { lemma_collect_some_step(rv, i as int, f); }
        assert(rv[i as int] == refs@[i as int]@);
        match member_name_exec(md, refs[i].as_slice()) {
            Some(n) => {
                let ghost before = fields@;
                fields.push(n);
                assert(strings_view(fields@) =~= strings_view(before).push(n@));
            },
            None => {},
        }
        i += 1;
    }
    assert(rv.take(rv.len() as int) == rv);
    if fields.len() > 0 {
        Some((name, fields))
    } else {
        None
    }
}

fn is_live_entry(es: &Vec<(String, String)>, i: usize) -> (b: bool)
    requires
        i < es@.len(),
    ensures
        b == live_entry(entries_view(es@), i as int),
{
    let ghost ev = entries_view(es@);
    let k = chars_of(es[i].0.as_str());
    let n = es.len();
    assert(i < n);
    let mut j = i + 1;
    while j < es.len()
        invariant
            i < j <= es@.len(),
            ev == entries_view(es@),
            k@ == ev[i as int].0,
            forall|m: int| i < m < j ==> #[trigger] ev[m].0 != ev[i as int].0,
        decreases es@.len() - j,
    {
        let kj = chars_of(es[j].0.as_str());
        if crate::text::chars_eq(kj.as_slice(), k.as_slice()) {
            assert(ev[j as int].0 == ev[i as int].0);
            return false;
        }
        j += 1;
    }
    true
}

fn debug_struct_fields_exec(md: &TextMap, with_class: bool) -> (r: FieldNameMap)
    ensures
        r.view_entries() == debug_struct_fields(md.view_entries(), with_class),
{
    let ghost mdv = md.view_entries();
    let n = md.entries.len();
    let ghost idx = Seq::new(n as nat, |i: int| i);
    let ghost f = |i: int|
        if live_entry(mdv, i) {
            composite_fields(mdv, mdv[i].1, with_class)
        } else {
            None
        };
    let mut out: Vec<(String, Vec<String>)> = Vec::new();
    let mut i: usize = 0;
    while i < n
        invariant
            i <= n,
            n == md.entries@.len(),
            mdv == md.view_entries(),
            idx == Seq::new(n as nat, |i: int| i),
            f == (|i: int|
                if live_entry(mdv, i) {
                    composite_fields(mdv, mdv[i].1, with_class)
                } else {
                    None
                }),
            out@.map_values(|e: (String, Vec<String>)| (e.0@, strings_view(e.1@))) == collect_some(
                idx.take(i as int),
                f,
            ),
        decreases n - i,
    {
        proof { lemma_collect_some_step(idx, i as int, f); }
        if is_live_entry(&md.entries, i) {
            let rhs = chars_of(md.entries[i].1.as_str());
            match composite_fields_exec(md, rhs.as_slice(), with_class) {
                Some((name, fields)) => {
                    let ghost before = out@;
                    let ghost fv = strings_view(fields@);
                    out.push((string_from(name.as_slice()), fields));
                    assert(out@.map_values(|e: (String, Vec<String>)| (e.0@, strings_view(e.1@)))
                        =~= before.map_values(|e: (String, Vec<String>)| (e.0@, strings_view(e.1@))).push(
                        (name@, fv),
                    ));
                },
                None => {},
            }
        }
        i += 1;
    }
    assert(idx.take(n as int) == idx);
    FieldNameMap { entries: out }
}

/// Member names of every structure or class type in the debug metadata of
/// the IR text, keyed by normalized struct name.  Composite entries are
/// visited in the order their lines appear; a later struct of the same name
/// replaces an earlier one.
pub fn extract_struct_field_names_from_debug(ir: &str) -> (r: FieldNameMap)
    ensures
        r.view_entries() == debug_struct_fields(metadata_entries(lines_of(ir@)), true),
{
    let md = extract_metadata_map(ir);
    debug_struct_fields_exec(&md, true)
}

/// Member names of every structure type in the debug metadata of the IR
/// text, keyed by struct name without `struct.`/`class.` prefixes.
/// Composite entries are visited in the order their lines appear; a later
/// struct of the same name replaces an earlier one.
pub fn extract_field_names_from_debug(ir_text: &str) -> (r: FieldNameMap)
    ensures
        r.view_entries() == debug_struct_fields(metadata_entries(lines_of(ir_text@)), false),
{
    let md = extract_metadata_map(ir_text);
    debug_struct_fields_exec(&md, false)
}

} // verus!
