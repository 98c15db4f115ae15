//! The state heartbeat: a periodic, human-readable dump of the program's
//! persistent state variables, flattened through nested structs and decoded
//! according to their LLVM types.
use vstd::prelude::*;
use crate::text::{
    chars_of, decimal, eq_str, push_all, push_decimal, push_signed, push_str, signed_decimal,
    slice_of, starts_with_char, string_from, trim, trim_spec,
};
use crate::render::{hex2, join_all, join_sep, lemma_join_all_step, lemma_join_sep_step, push_hex2};
use crate::state_hash::{i16_from_le, i32_from_le, i8_from_le, le_signed};
use crate::harness_gen::{array_parts, name_end};
use crate::layout::{FieldLayout, FieldModel, LayoutModel, ProgramLayout, layouts_view};
use crate::metadata::lookup;

verus! {

// ---------------------------------------------------------------------------
// File name and hexadecimal
// ---------------------------------------------------------------------------

/// A tag character as it appears in a file name: ASCII letters, digits, `-`
/// and `_` stay, anything else becomes `_`.
pub open spec fn safe_tag_char(c: char) -> char {
    if crate::text::is_alnum(c) || c == '-' || c == '_' {
        c
    } else {
        '_'
    }
}

/// The heartbeat file of a fuzzer tag: `/tmp/<tag>_state_heartbeat.txt`
/// with the tag made safe for a file name.
pub open spec fn heartbeat_file(tag: Seq<char>) -> Seq<char> {
    "/tmp/"@ + tag.map_values(|c: char| safe_tag_char(c)) + "_state_heartbeat.txt"@
}

/// The path of the heartbeat time stamp file for `tag`.
pub fn heartbeat_path(tag: &str) -> (r: String)
    ensures
        r@ == heartbeat_file(tag@),
{
    let t = chars_of(tag);
    let mut out: Vec<char> = Vec::new();
    push_str(&mut out, "/tmp/");
    let ghost start = out@;
    let mut i: usize = 0;
    while i < t.len()
        invariant
            i <= t@.len(),
            out@ == start + t@.take(i as int).map_values(|c: char| safe_tag_char(c)),
        decreases t@.len() - i,
    {
        let c = t[i];
        let s = if crate::text::is_alnum_exec(c) || c == '-' || c == '_' {
            c
        } else {
            '_'
        };
        out.push(s);
        i += 1;
        assert(t@.take(i as int).map_values(|c: char| safe_tag_char(c)) =~= t@.take(i - 1).map_values(
            |c: char| safe_tag_char(c),
        ).push(safe_tag_char(c)));
    }
    assert(t@.take(t@.len() as int) == t@);
    push_str(&mut out, "_state_heartbeat.txt");
    string_from(out.as_slice())
}

/// Bytes as lowercase hexadecimal, two digits each.
pub open spec fn hex_of(bytes: Seq<u8>) -> Seq<char> {
    join_all(bytes, |b: u8| hex2(b))
}

fn push_hex(out: &mut Vec<char>, bytes: &[u8])
    ensures
        final(out)@ == old(out)@ + hex_of(bytes@),
{
    let ghost f = |b: u8| hex2(b);
    let mut i: usize = 0;
    while i < bytes.len()
        invariant
            i <= bytes@.len(),
            f == (|b: u8| hex2(b)),
            out@ == old(out)@ + join_all(bytes@.take(i as int), f),
        decreases bytes@.len() - i,
    {
        proof { lemma_join_all_step(bytes@, i as int, f); }
        push_hex2(out, bytes[i]);
        i += 1;
    }
    assert(bytes@.take(bytes@.len() as int) == bytes@);
}

/// The bytes in lowercase hexadecimal, two digits per byte.
pub fn bytes_to_hex(bytes: &[u8]) -> (r: String)
    ensures
        r@ == hex_of(bytes@),
{
    let mut out: Vec<char> = Vec::new();
    push_hex(&mut out, bytes);
    string_from(out.as_slice())
}

// ---------------------------------------------------------------------------
// Little-endian values
// ---------------------------------------------------------------------------

/// The unsigned little-endian value of some bytes.
pub open spec fn le_unsigned(b: Seq<u8>) -> nat
    decreases b.len(),
{
    if b.len() == 0 {
        0
    } else {
        b[0] as nat + 256 * le_unsigned(b.drop_first())
    }
}

/// The signed (two's complement) little-endian value of 8 bytes.
pub open spec fn le_i64(b: Seq<u8>) -> int {
    let u = le_unsigned(b);
    if u >= 0x8000_0000_0000_0000 {
        u - 0x1_0000_0000_0000_0000
    } else {
        u as int
    }
}

proof fn lemma_le_unsigned_small(b: Seq<u8>)
    ensures
        b.len() == 1 ==> le_unsigned(b) == b[0],
        b.len() == 2 ==> le_unsigned(b) == b[0] + 256 * b[1],
        b.len() == 4 ==> le_unsigned(b) == b[0] + 256 * b[1] + 65536 * b[2] + 16777216 * b[3],
        b.len() == 8 ==> le_unsigned(b) == b[0] + 256 * b[1] + 65536 * b[2] + 16777216 * b[3]
            + 0x1_0000_0000 * b[4] + 0x100_0000_0000 * b[5] + 0x1_0000_0000_0000 * b[6]
            + 0x100_0000_0000_0000 * b[7],
{
    reveal_with_fuel(le_unsigned, 9);
    if b.len() == 8 {
        assert(b.drop_first().drop_first().drop_first().drop_first().drop_first().drop_first().drop_first().drop_first().len() == 0);
    }
}

/// The little-endian signed 16-bit values of consecutive byte pairs,
/// separated by commas.
pub open spec fn i16_words(b: Seq<u8>) -> Seq<char> {
    join_sep(
        Seq::new(b.len() / 2, |k: int| k),
        |k: int| signed_decimal(le_signed(b.subrange(2 * k, 2 * k + 2))),
        ","@,
    )
}

/// The signed 8-bit values of the bytes, separated by commas.
pub open spec fn i8_values(b: Seq<u8>) -> Seq<char> {
    join_sep(
        Seq::new(b.len(), |k: int| k),
        |k: int| signed_decimal(le_signed(b.subrange(k, k + 1))),
        ","@,
    )
}

fn push_i16_words(out: &mut Vec<char>, bytes: &[u8])
    requires
        bytes@.len() % 2 == 0,
    ensures
        final(out)@ == old(out)@ + i16_words(bytes@),
{
    let len = bytes.len();
    let n = len / 2;
    let ghost idx = Seq::new(n as nat, |k: int| k);
    let ghost f = |k: int| signed_decimal(le_signed(bytes@.subrange(2 * k, 2 * k + 2)));
    let mut k: usize = 0;
    while k < n
        invariant
            k <= n,
            n == bytes@.len() / 2,
            len == bytes@.len(),
            bytes@.len() % 2 == 0,
            idx == Seq::new(n as nat, |k: int| k),
            f == (|k: int| signed_decimal(le_signed(bytes@.subrange(2 * k, 2 * k + 2)))),
            out@ == old(out)@ + join_sep(idx.take(k as int), f, ","@),
        decreases n - k,
    {
        proof { lemma_join_sep_step(idx, k as int, f, ","@); }
        if k > 0 {
            push_str(out, ",");
        }
        assert(2 * k + 1 < bytes@.len());
        let v = i16_from_le(bytes[2 * k], bytes[2 * k + 1]);
        assert(bytes@.subrange(2 * k as int, 2 * k + 2) =~= seq![bytes@[2 * k as int], bytes@[2 * k + 1]]);
        push_signed(out, v as i64);
        k += 1;
    }
    assert(idx.take(n as int) == idx);
}

fn push_i8_values(out: &mut Vec<char>, bytes: &[u8])
    ensures
        final(out)@ == old(out)@ + i8_values(bytes@),
{
    let n = bytes.len();
    let ghost idx = Seq::new(n as nat, |k: int| k);
    let ghost f = |k: int| signed_decimal(le_signed(bytes@.subrange(k, k + 1)));
    let mut k: usize = 0;
    while k < n
        invariant
            k <= n,
            n == bytes@.len(),
            idx == Seq::new(n as nat, |k: int| k),
            f == (|k: int| signed_decimal(le_signed(bytes@.subrange(k, k + 1)))),
            out@ == old(out)@ + join_sep(idx.take(k as int), f, ","@),
        decreases n - k,
    {
        proof { lemma_join_sep_step(idx, k as int, f, ","@); }
        if k > 0 {
            push_str(out, ",");
        }
        let v = i8_from_le(bytes[k]);
        assert(bytes@.subrange(k as int, k + 1) =~= seq![bytes@[k as int]]);
        push_signed(out, v as i64);
        k += 1;
    }
    assert(idx.take(n as int) == idx);
}

/// The comma-separated little-endian `i16` values of the bytes, when there
/// is a whole, nonzero number of pairs.
pub open spec fn i16_words_opt(b: Seq<u8>) -> Option<Seq<char>> {
    if b.len() % 2 != 0 || b.len() == 0 {
        None
    } else {
        Some(i16_words(b))
    }
}

/// The bytes read as consecutive little-endian `i16` values, separated by
/// commas; `None` for an empty or odd-length slice.
pub fn bytes_to_i16_words_le(bytes: &[u8]) -> (r: Option<String>)
    ensures
        crate::ddg_graph::opt_chars(r) == i16_words_opt(bytes@),
{
    if bytes.len() % 2 != 0 || bytes.len() == 0 {
        return None;
    }
    let mut out: Vec<char> = Vec::new();
    push_i16_words(&mut out, bytes);
    Some(string_from(out.as_slice()))
}

// ---------------------------------------------------------------------------
// Describing values
// ---------------------------------------------------------------------------

/// A field value described by its size alone: unsigned and signed readings
/// for 1, 2 and 4 bytes, else the hexadecimal bytes and their `i16` words.
pub open spec fn field_value_text(b: Seq<u8>) -> Seq<char> {
    let h = hex_of(b);
    if b.len() == 1 {
        "u8="@ + decimal(b[0] as nat) + " i8="@ + signed_decimal(le_signed(b)) + " hex=0x"@ + h
    } else if b.len() == 2 {
        "u16="@ + decimal(le_unsigned(b)) + " i16="@ + signed_decimal(le_signed(b)) + " hex=0x"@ + h
    } else if b.len() == 4 {
        "u32="@ + decimal(le_unsigned(b)) + " i32="@ + signed_decimal(le_signed(b)) + " hex=0x"@ + h
    } else {
        match i16_words_opt(b) {
            Some(w) => "hex=0x"@ + h + " i16=["@ + w + "]"@,
            None => "hex=0x"@ + h,
        }
    }
}

fn push_field_value(out: &mut Vec<char>, bytes: &[u8])
    ensures
        final(out)@ == old(out)@ + field_value_text(bytes@),
{
    proof { lemma_le_unsigned_small(bytes@); }
    let n = bytes.len();
    if n == 1 {
        push_str(out, "u8=");
        push_decimal(out, bytes[0] as u64);
        push_str(out, " i8=");
        push_signed(out, i8_from_le(bytes[0]) as i64);
        assert(bytes@ =~= seq![bytes@[0]]);
    } else if n == 2 {
        let u: u64 = bytes[0] as u64 + 256 * (bytes[1] as u64);
        push_str(out, "u16=");
        push_decimal(out, u);
        push_str(out, " i16=");
        push_signed(out, i16_from_le(bytes[0], bytes[1]) as i64);
        assert(bytes@ =~= seq![bytes@[0], bytes@[1]]);
    } else if n == 4 {
        let u: u64 = bytes[0] as u64 + 256 * (bytes[1] as u64) + 65536 * (bytes[2] as u64)
            + 16777216 * (bytes[3] as u64);
        push_str(out, "u32=");
        push_decimal(out, u);
        push_str(out, " i32=");
        push_signed(out, i32_from_le(bytes[0], bytes[1], bytes[2], bytes[3]) as i64);
        assert(bytes@ =~= seq![bytes@[0], bytes@[1], bytes@[2], bytes@[3]]);
    } else {
        push_str(out, "hex=0x");
        push_hex(out, bytes);
        if n % 2 == 0 && n > 0 {
            push_str(out, " i16=[");
            push_i16_words(out, bytes);
            push_str(out, "]");
        }
        assert(out@ =~= old(out)@ + field_value_text(bytes@));
        return;
    }
    push_str(out, " hex=0x");
    push_hex(out, bytes);
    assert(out@ =~= old(out)@ + field_value_text(bytes@));
}

/// Describes a field value from its size alone: for 1, 2 and 4 bytes its
/// unsigned and signed little-endian values and hex bytes, otherwise the hex
/// bytes and, for an even nonzero length, the `i16` words.
pub fn describe_field_value(bytes: &[u8]) -> (r: String)
    ensures
        r@ == field_value_text(bytes@),
{
    let mut out: Vec<char> = Vec::new();
    push_field_value(&mut out, bytes);
    string_from(out.as_slice())
}

/// The element count and element type of an LLVM array type `[N x T]`.
pub fn parse_array_type(llvm_type: &str) -> (r: Option<(usize, String)>)
    ensures
        match r {
            Some((n, e)) => array_parts(trim_spec(llvm_type@)) == Some((n as nat, e@)),
            None => array_parts(trim_spec(llvm_type@)) is None,
        },
{
    let t = trim(chars_of(llvm_type).as_slice());
    match crate::harness_gen::array_parts_exec(t.as_slice()) {
        Some((n, e)) => Some((n, string_from(e.as_slice()))),
        None => None,
    }
}

/// A value described according to its LLVM type: `i8`..`i64` as signed
/// values, arrays of `i16` or `i8` as their element values (when the byte
/// count matches), each with the hex bytes; anything else by size alone.
pub open spec fn typed_value_text(llvm_type: Seq<char>, b: Seq<u8>) -> Seq<char> {
    let t = trim_spec(llvm_type);
    let h = hex_of(b);
    if t == "i8"@ {
        if b.len() == 1 {
            "i8="@ + signed_decimal(le_signed(b)) + " u8="@ + decimal(b[0] as nat) + " hex=0x"@ + h
        } else {
            field_value_text(b)
        }
    } else if t == "i16"@ {
        if b.len() == 2 {
            "i16="@ + signed_decimal(le_signed(b)) + " hex=0x"@ + h
        } else {
            field_value_text(b)
        }
    } else if t == "i32"@ {
        if b.len() == 4 {
            "i32="@ + signed_decimal(le_signed(b)) + " hex=0x"@ + h
        } else {
            field_value_text(b)
        }
    } else if t == "i64"@ {
        if b.len() == 8 {
            "i64="@ + signed_decimal(le_i64(b)) + " hex=0x"@ + h
        } else {
            field_value_text(b)
        }
    } else {
        match array_parts(t) {
            Some((count, elem)) => if elem == "i16"@ && b.len() == count * 2 {
                "["@ + i16_words(b) + "] hex=0x"@ + h
            } else if elem == "i8"@ && b.len() == count {
                "["@ + i8_values(b) + "] hex=0x"@ + h
            } else {
                field_value_text(b)
            },
            None => field_value_text(b),
        }
    }
}

fn i64_from_le(b: &[u8]) -> (v: i64)
    requires
        b@.len() == 8,
    ensures
        v as int == le_i64(b@),
{
    proof { lemma_le_unsigned_small(b@); }
    let u: u64 = b[0] as u64 + 256 * (b[1] as u64) + 65536 * (b[2] as u64) + 16777216 * (b[3] as u64)
        + 0x1_0000_0000 * (b[4] as u64) + 0x100_0000_0000 * (b[5] as u64) + 0x1_0000_0000_0000 * (
    b[6] as u64) + 0x100_0000_0000_0000 * (b[7] as u64);
    if u >= 0x8000_0000_0000_0000 {
        let x: i64 = (u - 0x8000_0000_0000_0000) as i64;
        x - 0x7fff_ffff_ffff_ffff - 1
    } else {
        u as i64
    }
}

/// The value an 8-byte `i64` state variable is described with is its two's
/// complement reading: the one number in the `i64` range that agrees with
/// the unsigned little-endian value modulo 2^64 (so all-ones bytes read as
/// -1, and a value below 2^63 reads as itself).
pub proof fn lemma_i64_reads_twos_complement(llvm_type: Seq<char>, b: Seq<u8>)
    requires
        trim_spec(llvm_type) == "i64"@,
        b.len() == 8,
    ensures
        typed_value_text(llvm_type, b) == "i64="@ + signed_decimal(le_i64(b)) + " hex=0x"@ + hex_of(b),
        -0x8000_0000_0000_0000 <= le_i64(b) < 0x8000_0000_0000_0000,
        (le_i64(b) - le_unsigned(b)) % 0x1_0000_0000_0000_0000 == 0,
        le_unsigned(b) < 0x8000_0000_0000_0000 ==> le_i64(b) == le_unsigned(b),
{
    reveal_strlit("i8");
    reveal_strlit("i16");
    reveal_strlit("i32");
    reveal_strlit("i64");
    assert("i64"@[1] != "i16"@[1]);
    assert("i64"@[1] != "i32"@[1]);
    lemma_le_unsigned_small(b);
    assert(le_unsigned(b) < 0x1_0000_0000_0000_0000);
}

/// Describes a state value according to its LLVM type (see
/// `typed_value_text`).
pub fn describe_typed_value(llvm_type: &str, bytes: &[u8]) -> (r: String)
    ensures
        r@ == typed_value_text(llvm_type@, bytes@),
{
    proof { lemma_le_unsigned_small(bytes@); }
    proof {
        reveal_strlit("i8");
        reveal_strlit("i16");
        reveal_strlit("i32");
        reveal_strlit("i64");
        assert("i32"@[1] != "i16"@[1]);
        assert("i64"@[1] != "i16"@[1]);
        assert("i64"@[1] != "i32"@[1]);
    }
    let t = trim(chars_of(llvm_type).as_slice());
    let n = bytes.len();
    let mut out: Vec<char> = Vec::new();
    let ghost h = hex_of(bytes@);
    if eq_str(t.as_slice(), "i8") && n == 1 {
        push_str(&mut out, "i8=");
        push_signed(&mut out, i8_from_le(bytes[0]) as i64);
        push_str(&mut out, " u8=");
        push_decimal(&mut out, bytes[0] as u64);
        assert(bytes@ =~= seq![bytes@[0]]);
        push_str(&mut out, " hex=0x");
        push_hex(&mut out, bytes);
        assert(out@ =~= "i8="@ + signed_decimal(le_signed(bytes@)) + " u8="@ + decimal(
            bytes@[0] as nat,
        ) + " hex=0x"@ + h);
        assert(out@ =~= typed_value_text(llvm_type@, bytes@));
    } else if eq_str(t.as_slice(), "i16") && n == 2 {
        push_str(&mut out, "i16=");
        push_signed(&mut out, i16_from_le(bytes[0], bytes[1]) as i64);
        assert(bytes@ =~= seq![bytes@[0], bytes@[1]]);
        push_str(&mut out, " hex=0x");
        push_hex(&mut out, bytes);
        assert(out@ =~= "i16="@ + signed_decimal(le_signed(bytes@)) + " hex=0x"@ + h);
        assert(out@ =~= typed_value_text(llvm_type@, bytes@));
    } else if eq_str(t.as_slice(), "i32") && n == 4 {
        push_str(&mut out, "i32=");
        push_signed(&mut out, i32_from_le(bytes[0], bytes[1], bytes[2], bytes[3]) as i64);
        assert(bytes@ =~= seq![bytes@[0], bytes@[1], bytes@[2], bytes@[3]]);
        push_str(&mut out, " hex=0x");
        push_hex(&mut out, bytes);
        assert(out@ =~= "i32="@ + signed_decimal(le_signed(bytes@)) + " hex=0x"@ + h);
        assert(out@ =~= typed_value_text(llvm_type@, bytes@));
    } else if eq_str(t.as_slice(), "i64") && n == 8 {
        push_str(&mut out, "i64=");
        push_signed(&mut out, i64_from_le(bytes));
        push_str(&mut out, " hex=0x");
        push_hex(&mut out, bytes);
        assert(out@ =~= "i64="@ + signed_decimal(le_i64(bytes@)) + " hex=0x"@ + h);
        assert(out@ =~= typed_value_text(llvm_type@, bytes@));
    } else if eq_str(t.as_slice(), "i8") || eq_str(t.as_slice(), "i16") || eq_str(t.as_slice(), "i32")
        || eq_str(t.as_slice(), "i64") {
        push_field_value(&mut out, bytes);
        assert(out@ =~= typed_value_text(llvm_type@, bytes@));
    } else {
        let parts = crate::harness_gen::array_parts_exec(t.as_slice());
        match parts {
            Some((count, elem)) => {
                if eq_str(elem.as_slice(), "i16") && count <= n && n - count == count {
                    push_str(&mut out, "[");
                    push_i16_words(&mut out, bytes);
                    push_str(&mut out, "] hex=0x");
                    push_hex(&mut out, bytes);
                    assert(out@ =~= "["@ + i16_words(bytes@) + "] hex=0x"@ + h);
        assert(out@ =~= typed_value_text(llvm_type@, bytes@));
                } else if eq_str(elem.as_slice(), "i8") && n == count {
                    push_str(&mut out, "[");
                    push_i8_values(&mut out, bytes);
                    push_str(&mut out, "] hex=0x");
                    push_hex(&mut out, bytes);
                    assert(out@ =~= "["@ + i8_values(bytes@) + "] hex=0x"@ + h);
        assert(out@ =~= typed_value_text(llvm_type@, bytes@));
                } else {
                    push_field_value(&mut out, bytes);
                }
            },
            None => {
                push_field_value(&mut out, bytes);
            },
        }
    }
    assert(out@ =~= typed_value_text(llvm_type@, bytes@));
    string_from(out.as_slice())
}

// ---------------------------------------------------------------------------
// Flattening the state through nested structs
// ---------------------------------------------------------------------------

/// The struct a type `%Name` (or `%Name = type ...`) refers to, trimmed.
pub open spec fn struct_ref(llvm_type: Seq<char>) -> Option<Seq<char>> {
    let t = trim_spec(llvm_type);
    if !starts_with_char(t, '%') {
        None
    } else {
        let raw = trim_spec(t.subrange(1, name_end(t) as int));
        if raw.len() == 0 {
            None
        } else {
            Some(raw)
        }
    }
}

/// The struct name a field type refers to (`%Name` gives `Name`).
pub fn parse_struct_ref(llvm_type: &str) -> (r: Option<String>)
    ensures
        crate::ddg_graph::opt_chars(r) == struct_ref(llvm_type@),
{
    let t = trim(chars_of(llvm_type).as_slice());
    if !crate::text::starts_with_char_exec(t.as_slice(), '%') {
        return None;
    }
    let mut e: usize = 0;
    assert(t@.skip(0) == t@);
    while e < t.len() && !(t[e] == ' ' || t[e] == '=')
        invariant
            e <= t@.len(),
            name_end(t@) == e + name_end(t@.skip(e as int)),
        decreases t@.len() - e,
    {
        assert(t@.skip(e as int).drop_first() == t@.skip(e + 1));
        e += 1;
    }
    proof {
        if e < t@.len() {
            assert(t@.skip(e as int)[0] == t@[e as int]);
        }
    }
    let raw = trim(slice_of(t.as_slice(), 1, e).as_slice());
    if raw.len() == 0 {
        None
    } else {
        Some(string_from(raw.as_slice()))
    }
}

/// The program layouts the heartbeat reads, by struct name; a later layout
/// of the same name replaces an earlier one.
#[derive(Debug, Clone)]
pub struct HeartbeatLayout {
    pub by_struct: Vec<ProgramLayout>,
}

/// One state variable: a field at the bottom of the struct nesting.
#[derive(Debug, Clone)]
pub struct StateLeaf {
    /// Dotted path of field names from the program struct.
    pub name: String,
    pub llvm_type: String,
    pub offset: usize,
    pub size: usize,
}

/// A state variable as mathematical values.
pub struct LeafModel {
    pub name: Seq<char>,
    pub llvm_type: Seq<char>,
    pub offset: usize,
    pub size: usize,
}

impl View for StateLeaf {
    type V = LeafModel;

    open spec fn view(&self) -> LeafModel {
        LeafModel {
            name: self.name@,
            llvm_type: self.llvm_type@,
            offset: self.offset,
            size: self.size,
        }
    }
}

/// The leaves as models.
pub open spec fn leaves_view(ls: Seq<StateLeaf>) -> Seq<LeafModel> {
    ls.map_values(|l: StateLeaf| l@)
}

/// The layouts keyed by struct name.
pub open spec fn keyed(hl: Seq<LayoutModel>) -> Seq<(Seq<char>, LayoutModel)> {
    hl.map_values(|l: LayoutModel| (l.struct_name, l))
}

/// `a + b`, or the largest `usize` when that overflows.
pub open spec fn sat_add(a: usize, b: usize) -> usize {
    if a + b > usize::MAX {
        usize::MAX
    } else {
        (a + b) as usize
    }
}

/// The leaves of struct `name` placed at `base` with names under `prefix`:
/// none when there is no layout of that name; `None` when the nesting goes
/// deeper than `depth`.
pub open spec fn struct_leaves(
    hl: Seq<LayoutModel>,
    name: Seq<char>,
    prefix: Seq<char>,
    base: usize,
    depth: nat,
) -> Option<Seq<LeafModel>>
    decreases depth, 0nat, 0nat,
{
    match lookup(keyed(hl), name) {
        None => Some(Seq::empty()),
        Some(p) => if depth == 0 {
            None
        } else {
            fields_leaves(hl, p.fields, prefix, base, (depth - 1) as nat)
        },
    }
}

/// The leaves of some fields, in order.
pub open spec fn fields_leaves(
    hl: Seq<LayoutModel>,
    fs: Seq<FieldModel>,
    prefix: Seq<char>,
    base: usize,
    depth: nat,
) -> Option<Seq<LeafModel>>
    decreases depth, 2nat, fs.len(),
{
    if fs.len() == 0 {
        Some(Seq::empty())
    } else {
        match fields_leaves(hl, fs.drop_last(), prefix, base, depth) {
            Some(a) => match field_leaves(hl, fs.last(), prefix, base, depth) {
                Some(b) => Some(a + b),
                None => None,
            },
            None => None,
        }
    }
}

/// The leaves of one field: none for an unnamed field or the vtable, the
/// leaves of the embedded struct when its layout is known, else the field.
pub open spec fn field_leaves(
    hl: Seq<LayoutModel>,
    f: FieldModel,
    prefix: Seq<char>,
    base: usize,
    depth: nat,
) -> Option<Seq<LeafModel>>
    decreases depth, 1nat, 0nat,
{
    match f.name {
        None => Some(Seq::empty()),
        Some(n) => if n == "__vtable"@ {
            Some(Seq::empty())
        } else {
            let full = if prefix.len() == 0 {
                n
            } else {
                prefix + seq!['.'] + n
            };
            let offset = sat_add(base, f.byte_offset as usize);
            let leaf = LeafModel {
                name: full,
                llvm_type: f.llvm_type,
                offset: offset,
                size: f.byte_size as usize,
            };
            match struct_ref(f.llvm_type) {
                Some(nested) => if lookup(keyed(hl), nested) is Some {
                    struct_leaves(hl, nested, full, offset, depth)
                } else {
                    Some(seq![leaf])
                },
                None => Some(seq![leaf]),
            }
        },
    }
}

proof fn lemma_fields_leaves_stuck(
    hl: Seq<LayoutModel>,
    fs: Seq<FieldModel>,
    j: int,
    prefix: Seq<char>,
    base: usize,
    depth: nat,
)
    requires
        0 <= j <= fs.len(),
        fields_leaves(hl, fs.take(j), prefix, base, depth) is None,
    ensures
        fields_leaves(hl, fs, prefix, base, depth) is None,
    decreases fs.len() - j,
{
    if j < fs.len() {
        assert(fs.take(j + 1).drop_last() == fs.take(j));
        lemma_fields_leaves_stuck(hl, fs, j + 1, prefix, base, depth);
    } else {
        assert(fs.take(j) == fs);
    }
}

fn find_heartbeat_layout(hl: &HeartbeatLayout, name: &[char]) -> (r: Option<usize>)
    ensures
        match r {
            Some(k) => k < hl.by_struct@.len() && lookup(keyed(layouts_view(hl.by_struct@)), name@)
                == Some(hl.by_struct@[k as int]@),
            None => lookup(keyed(layouts_view(hl.by_struct@)), name@) is None,
        },
{
    let ghost kv = keyed(layouts_view(hl.by_struct@));
    let mut i = hl.by_struct.len();
    assert(kv.take(i as int) == kv);
    while i > 0
        invariant
            i <= hl.by_struct@.len(),
            kv == keyed(layouts_view(hl.by_struct@)),
            lookup(kv, name@) == lookup(kv.take(i as int), name@),
        decreases i,
    {
        assert(kv.take(i as int).drop_last() == kv.take(i - 1));
        let nk = chars_of(hl.by_struct[i - 1].struct_name.as_str());
        if crate::text::chars_eq(nk.as_slice(), name) {
            return Some(i - 1);
        }
        i -= 1;
    }
    None
}

fn copy_text(s: &String) -> (r: String)
    ensures
        r@ == s@,
{
    string_from(chars_of(s.as_str()).as_slice())
}

/// Appends the leaves of one field; `false` when the nesting goes deeper
/// than `depth`.
fn collect_field_leaves(
    layout: &HeartbeatLayout,
    f: &FieldLayout,
    prefix: &[char],
    base_offset: usize,
    leaves: &mut Vec<StateLeaf>,
    depth: usize,
) -> (complete: bool)
    ensures
        ({
            let hl = layouts_view(layout.by_struct@);
            match field_leaves(hl, f@, prefix@, base_offset, depth as nat) {
                Some(ls) => complete && leaves_view(final(leaves)@) == leaves_view(old(leaves)@)
                    + ls,
                None => !complete,
            }
        }),
    decreases depth, 1nat,
{
    let name = match &f.name {
        Some(n) => chars_of(n.as_str()),
        None => return true,
    };
    if eq_str(name.as_slice(), "__vtable") {
        return true;
    }
    let mut full: Vec<char> = Vec::new();
    if prefix.len() > 0 {
        push_all(&mut full, prefix);
        full.push('.');
    }
    push_all(&mut full, name.as_slice());
    assert(full@ =~= (if prefix@.len() == 0 {
        name@
    } else {
        prefix@ + seq!['.'] + name@
    }));
    let offset = base_offset.saturating_add(f.byte_offset as usize);
    match parse_struct_ref(f.llvm_type.as_str()) {
        Some(nested) => {
            let nc = chars_of(nested.as_str());
            if find_heartbeat_layout(layout, nc.as_slice()).is_some() {
                return collect_state_leaves(layout, nested.as_str(), full.as_slice(), offset, leaves, depth);
            }
        },
        None => {},
    }
    let ghost before = leaves@;
    let leaf = StateLeaf {
        name: string_from(full.as_slice()),
        llvm_type: copy_text(&f.llvm_type),
        offset,
        size: f.byte_size as usize,
    };
    leaves.push(leaf);
    assert(leaves_view(leaves@) =~= leaves_view(before).push(leaf@));
    true
}

/// Appends the state variables of struct `struct_name` (placed at
/// `base_offset`, named under `prefix`), walking into embedded structs that
/// have layouts: nothing when the struct has no layout; `false` (with
/// `leaves` partly filled) when the nesting goes deeper than `depth`.
pub fn collect_state_leaves(
    layout: &HeartbeatLayout,
    struct_name: &str,
    prefix: &[char],
    base_offset: usize,
    leaves: &mut Vec<StateLeaf>,
    depth: usize,
) -> (complete: bool)
    ensures
        ({
            let hl = layouts_view(layout.by_struct@);
            match struct_leaves(hl, struct_name@, prefix@, base_offset, depth as nat) {
                Some(ls) => complete && leaves_view(final(leaves)@) == leaves_view(old(leaves)@)
                    + ls,
                None => !complete,
            }
        }),
    decreases depth, 0nat,
{
    let ghost hl = layouts_view(layout.by_struct@);
    let k = match find_heartbeat_layout(layout, chars_of(struct_name).as_slice()) {
        Some(k) => k,
        None => {
            assert(leaves_view(leaves@) =~= leaves_view(old(leaves)@) + Seq::<LeafModel>::empty());
            return true;
        },
    };
    if depth == 0 {
        return false;
    }
    let program = &layout.by_struct[k];
    let ghost fs = program@.fields;
    let ghost start = leaves_view(leaves@);
    assert(fs.take(0) == Seq::<FieldModel>::empty());
    let mut i: usize = 0;
    while i < program.fields.len()
        invariant
            i <= program.fields@.len(),
            fs == program@.fields,
            hl == layouts_view(layout.by_struct@),
            lookup(keyed(hl), struct_name@) == Some(program@),
            0 < depth,
            fields_leaves(hl, fs.take(i as int), prefix@, base_offset, (depth - 1) as nat) == Some(
                leaves_view(leaves@).subrange(start.len() as int, leaves_view(leaves@).len() as int),
            ),
            start.len() <= leaves_view(leaves@).len(),
            leaves_view(leaves@).take(start.len() as int) == start,
        decreases program.fields@.len() - i,
    {
        let ghost before = leaves_view(leaves@);
        assert(fs.take(i + 1).drop_last() == fs.take(i as int));
        assert(fs.take(i + 1).last() == program.fields@[i as int]@);
        let ok = collect_field_leaves(layout, &program.fields[i], prefix, base_offset, leaves, depth - 1);
        if !ok {
            proof {
                assert(field_leaves(hl, fs[i as int], prefix@, base_offset, (depth - 1) as nat) is None);
                assert(fields_leaves(hl, fs.take(i + 1), prefix@, base_offset, (depth - 1) as nat) is None);
                lemma_fields_leaves_stuck(hl, fs, i + 1, prefix@, base_offset, (depth - 1) as nat);
                assert(struct_leaves(hl, struct_name@, prefix@, base_offset, depth as nat) is None);
            }
            return false;
        }
        proof {
            let lv = leaves_view(leaves@);
            assert(lv.take(start.len() as int) =~= start);
            assert(lv.subrange(start.len() as int, lv.len() as int) =~= before.subrange(
                start.len() as int,
                before.len() as int,
            ) + lv.subrange(before.len() as int, lv.len() as int));
        }
        i += 1;
    }
    assert(fs.take(fs.len() as int) == fs);
    assert(leaves_view(leaves@) =~= start + leaves_view(leaves@).subrange(
        start.len() as int,
        leaves_view(leaves@).len() as int,
    ));
    true
}

/// Which top-level fields the harness reports as inputs, by name; a later
/// entry for a name replaces an earlier one.
#[derive(Debug, Clone)]
pub struct InputFlags {
    pub entries: Vec<(String, bool)>,
}

impl InputFlags {
    /// The entries as mathematical values.
    pub open spec fn view_entries(&self) -> Seq<(Seq<char>, bool)> {
        self.entries@.map_values(|e: (String, bool)| (e.0@, e.1))
    }

    /// The flag stored last for `name`.
    pub fn get(&self, name: &[char]) -> (r: Option<bool>)
        ensures
            r == lookup(self.view_entries(), name@),
    {
        let ghost ev = self.view_entries();
        let mut i = self.entries.len();
        assert(ev.take(i as int) == ev);
        while i > 0
            invariant
                i <= self.entries@.len(),
                ev == self.view_entries(),
                lookup(ev, name@) == lookup(ev.take(i as int), name@),
            decreases i,
        {
            assert(ev.take(i as int).drop_last() == ev.take(i - 1));
            let k = chars_of(self.entries[i - 1].0.as_str());
            if crate::text::chars_eq(k.as_slice(), name) {
                return Some(self.entries[i - 1].1);
            }
            i -= 1;
        }
        None
    }
}

/// The leaves of a top-level field: none for a field the harness flags as
/// input, else as for any field.
pub open spec fn top_field_leaves(
    hl: Seq<LayoutModel>,
    f: FieldModel,
    flags: Seq<(Seq<char>, bool)>,
    depth: nat,
) -> Option<Seq<LeafModel>> {
    match f.name {
        Some(n) => if lookup(flags, n) == Some(true) {
            Some(Seq::empty())
        } else {
            field_leaves(hl, f, Seq::empty(), 0, depth)
        },
        None => Some(Seq::empty()),
    }
}

/// The leaves of the top-level fields, in order.
pub open spec fn top_leaves(
    hl: Seq<LayoutModel>,
    fs: Seq<FieldModel>,
    flags: Seq<(Seq<char>, bool)>,
    depth: nat,
) -> Option<Seq<LeafModel>>
    decreases fs.len(),
{
    if fs.len() == 0 {
        Some(Seq::empty())
    } else {
        match top_leaves(hl, fs.drop_last(), flags, depth) {
            Some(a) => match top_field_leaves(hl, fs.last(), flags, depth) {
                Some(b) => Some(a + b),
                None => None,
            },
            None => None,
        }
    }
}

/// The state variables of program `program`: its non-input, non-vtable
/// fields, walked into embedded structs; `None` when the program has no
/// layout, or when structs nest deeper than there are layouts (which only a
/// struct that contains itself can do).
pub open spec fn flattened_state(
    hl: Seq<LayoutModel>,
    program: Seq<char>,
    flags: Seq<(Seq<char>, bool)>,
) -> Option<Seq<LeafModel>> {
    match lookup(keyed(hl), program) {
        None => None,
        Some(top) => top_leaves(hl, top.fields, flags, hl.len()),
    }
}

proof fn lemma_top_leaves_stuck(
    hl: Seq<LayoutModel>,
    fs: Seq<FieldModel>,
    j: int,
    flags: Seq<(Seq<char>, bool)>,
    depth: nat,
)
    requires
        0 <= j <= fs.len(),
        top_leaves(hl, fs.take(j), flags, depth) is None,
    ensures
        top_leaves(hl, fs, flags, depth) is None,
    decreases fs.len() - j,
{
    if j < fs.len() {
        assert(fs.take(j + 1).drop_last() == fs.take(j));
        lemma_top_leaves_stuck(hl, fs, j + 1, flags, depth);
    } else {
        assert(fs.take(j) == fs);
    }
}

/// The fields of the layout of struct `n` (none when it has no layout).
pub open spec fn fields_of(hl: Seq<LayoutModel>, n: Seq<char>) -> Seq<FieldModel> {
    match lookup(keyed(hl), n) {
        Some(p) => p.fields,
        None => Seq::empty(),
    }
}

/// The struct with a layout that field `f` embeds, if any.
pub open spec fn nested_in(hl: Seq<LayoutModel>, f: FieldModel) -> Option<Seq<char>> {
    match struct_ref(f.llvm_type) {
        Some(e) => if lookup(keyed(hl), e) is Some {
            Some(e)
        } else {
            None
        },
        None => None,
    }
}

/// `rank` is below the number of layouts and falls from each struct to the
/// structs its fields embed: the nesting has no cycle.
pub open spec fn heartbeat_nesting_ranked(hl: Seq<LayoutModel>, rank: spec_fn(Seq<char>) -> nat) -> bool {
    &&& forall|n: Seq<char>| #[trigger] lookup(keyed(hl), n) is Some ==> rank(n) < hl.len()
    &&& forall|n: Seq<char>, k: int|
        0 <= k < fields_of(hl, n).len() && #[trigger] nested_in(hl, fields_of(hl, n)[k]) is Some ==> rank(
            nested_in(hl, fields_of(hl, n)[k]).unwrap(),
        ) < rank(n)
}

proof fn lemma_struct_leaves_some(
    hl: Seq<LayoutModel>,
    rank: spec_fn(Seq<char>) -> nat,
    name: Seq<char>,
    prefix: Seq<char>,
    base: usize,
    depth: nat,
)
    requires
        heartbeat_nesting_ranked(hl, rank),
        lookup(keyed(hl), name) is Some ==> rank(name) < depth,
    ensures
        struct_leaves(hl, name, prefix, base, depth) is Some,
    decreases depth, 0nat, 0nat,
{
    match lookup(keyed(hl), name) {
        None => {},
        Some(p) => {
            let fs = p.fields;
            assert(fs == fields_of(hl, name));
            assert forall|k: int| 0 <= k < fs.len() && #[trigger] nested_in(hl, fs[k]) is Some implies rank(
                nested_in(hl, fs[k]).unwrap(),
            ) < (depth - 1) as nat by {
                assert(nested_in(hl, fields_of(hl, name)[k]) is Some);
            }
            lemma_fields_leaves_some(hl, rank, fs, prefix, base, (depth - 1) as nat);
        },
    }
}

proof fn lemma_fields_leaves_some(
    hl: Seq<LayoutModel>,
    rank: spec_fn(Seq<char>) -> nat,
    fs: Seq<FieldModel>,
    prefix: Seq<char>,
    base: usize,
    depth: nat,
)
    requires
        heartbeat_nesting_ranked(hl, rank),
        forall|k: int| 0 <= k < fs.len() && #[trigger] nested_in(hl, fs[k]) is Some ==> rank(
            nested_in(hl, fs[k]).unwrap(),
        ) < depth,
    ensures
        fields_leaves(hl, fs, prefix, base, depth) is Some,
    decreases depth, 2nat, fs.len(),
{
    if fs.len() > 0 {
        let init = fs.drop_last();
        assert forall|k: int| 0 <= k < init.len() && #[trigger] nested_in(hl, init[k]) is Some implies rank(
            nested_in(hl, init[k]).unwrap(),
        ) < depth by {
            assert(init[k] == fs[k]);
        }
        lemma_fields_leaves_some(hl, rank, init, prefix, base, depth);
        assert(nested_in(hl, fs[fs.len() - 1]) is Some ==> rank(nested_in(hl, fs[fs.len() - 1]).unwrap()) < depth);
        lemma_field_leaves_some(hl, rank, fs.last(), prefix, base, depth);
    }
}

proof fn lemma_field_leaves_some(
    hl: Seq<LayoutModel>,
    rank: spec_fn(Seq<char>) -> nat,
    f: FieldModel,
    prefix: Seq<char>,
    base: usize,
    depth: nat,
)
    requires
        heartbeat_nesting_ranked(hl, rank),
        nested_in(hl, f) is Some ==> rank(nested_in(hl, f).unwrap()) < depth,
    ensures
        field_leaves(hl, f, prefix, base, depth) is Some,
    decreases depth, 1nat, 0nat,
{
    match f.name {
        None => {},
        Some(n) => if n != "__vtable"@ {
            let full = if prefix.len() == 0 {
                n
            } else {
                prefix + seq!['.'] + n
            };
            let offset = sat_add(base, f.byte_offset as usize);
            match struct_ref(f.llvm_type) {
                Some(nested) => if lookup(keyed(hl), nested) is Some {
                    lemma_struct_leaves_some(hl, rank, nested, full, offset, depth);
                },
                None => {},
            }
        },
    }
}

proof fn lemma_top_leaves_some(
    hl: Seq<LayoutModel>,
    rank: spec_fn(Seq<char>) -> nat,
    fs: Seq<FieldModel>,
    flags: Seq<(Seq<char>, bool)>,
)
    requires
        heartbeat_nesting_ranked(hl, rank),
    ensures
        top_leaves(hl, fs, flags, hl.len()) is Some,
    decreases fs.len(),
{
    if fs.len() > 0 {
        lemma_top_leaves_some(hl, rank, fs.drop_last(), flags);
        let f = fs.last();
        match nested_in(hl, f) {
            Some(e) => {
                assert(lookup(keyed(hl), e) is Some);
            },
            None => {},
        }
        lemma_field_leaves_some(hl, rank, f, Seq::empty(), 0, hl.len());
    }
}

/// When the struct nesting has no cycle (witnessed by a rank below the
/// number of layouts that falls from each struct to those its fields
/// embed), the walk never runs out of depth: the state of a program with a
/// layout is always flattened completely.
pub proof fn lemma_acyclic_state_flattens(
    hl: Seq<LayoutModel>,
    rank: spec_fn(Seq<char>) -> nat,
    program: Seq<char>,
    flags: Seq<(Seq<char>, bool)>,
)
    requires
        heartbeat_nesting_ranked(hl, rank),
        lookup(keyed(hl), program) is Some,
    ensures
        flattened_state(hl, program, flags) is Some,
{
    lemma_top_leaves_some(hl, rank, lookup(keyed(hl), program).unwrap().fields, flags);
}

/// The program's state variables as the heartbeat reports them (see
/// `flattened_state`).
pub fn flatten_state_from_layout(
    layout: &HeartbeatLayout,
    program_name: &str,
    input_flags: &InputFlags,
) -> (r: Option<Vec<StateLeaf>>)
    ensures
        match r {
            Some(v) => flattened_state(
                layouts_view(layout.by_struct@),
                program_name@,
                input_flags.view_entries(),
            ) == Some(leaves_view(v@)),
            None => flattened_state(
                layouts_view(layout.by_struct@),
                program_name@,
                input_flags.view_entries(),
            ) is None,
        },
{
    let ghost hl = layouts_view(layout.by_struct@);
    let ghost flags = input_flags.view_entries();
    let k = match find_heartbeat_layout(layout, chars_of(program_name).as_slice()) {
        Some(k) => k,
        None => return None,
    };
    let top = &layout.by_struct[k];
    let depth = layout.by_struct.len();
    let ghost fs = top@.fields;
    let mut leaves: Vec<StateLeaf> = Vec::new();
    let empty: Vec<char> = Vec::new();
    assert(fs.take(0) == Seq::<FieldModel>::empty());
    assert(leaves_view(leaves@) =~= Seq::<LeafModel>::empty());
    let mut i: usize = 0;
    while i < top.fields.len()
        invariant
            i <= top.fields@.len(),
            fs == top@.fields,
            hl == layouts_view(layout.by_struct@),
            flags == input_flags.view_entries(),
            depth == hl.len(),
            empty@ == Seq::<char>::empty(),
            lookup(keyed(hl), program_name@) == Some(top@),
            top_leaves(hl, fs.take(i as int), flags, depth as nat) == Some(leaves_view(leaves@)),
        decreases top.fields@.len() - i,
    {
        assert(fs.take(i + 1).drop_last() == fs.take(i as int));
        assert(fs.take(i + 1).last() == top.fields@[i as int]@);
        let f = &top.fields[i];
        let flagged = match &f.name {
            Some(n) => match input_flags.get(chars_of(n.as_str()).as_slice()) {
                Some(b) => b,
                None => false,
            },
            None => false,
        };
        let ghost before = leaves_view(leaves@);
        if !flagged {
            let ok = collect_field_leaves(layout, f, empty.as_slice(), 0, &mut leaves, depth);
            if !ok {
                proof { lemma_top_leaves_stuck(hl, fs, i + 1, flags, depth as nat); }
                return None;
            }
        } else {
            assert(before + Seq::<LeafModel>::empty() =~= before);
        }
        i += 1;
    }
    assert(fs.take(fs.len() as int) == fs);
    Some(leaves)
}

/// A state variable's heartbeat line, when it lies within the snapshot and
/// is not empty.
pub open spec fn leaf_line(tag: Seq<char>, leaf: LeafModel, snapshot: Seq<u8>) -> Option<Seq<char>> {
    let end = sat_add(leaf.offset, leaf.size);
    if end > snapshot.len() || leaf.size == 0 {
        None
    } else {
        Some(
            "["@ + tag + "]   "@ + leaf.name + " ("@ + decimal(leaf.size as nat) + "B @ "@ + decimal(
                leaf.offset as nat,
            ) + ") = "@ + typed_value_text(
                leaf.llvm_type,
                snapshot.subrange(leaf.offset as int, end as int),
            ),
        )
    }
}

/// The heartbeat line for one state variable, read from a state snapshot:
/// `[tag]   name (sizeB @ offset) = value`; `None` when it is empty or does
/// not lie within the snapshot.
pub fn heartbeat_leaf_line(tag: &str, leaf: &StateLeaf, snapshot: &[u8]) -> (r: Option<String>)
    ensures
        crate::ddg_graph::opt_chars(r) == leaf_line(tag@, leaf@, snapshot@),
{
    let start = leaf.offset;
    let end = start.saturating_add(leaf.size);
    if end > snapshot.len() || leaf.size == 0 {
        return None;
    }
    let bytes = crate::text::copy_of(&snapshot[start..end]);
    assert(bytes@ =~= snapshot@.subrange(start as int, end as int));
    let mut out: Vec<char> = Vec::new();
    push_str(&mut out, "[");
    push_str(&mut out, tag);
    push_str(&mut out, "]   ");
    push_str(&mut out, leaf.name.as_str());
    push_str(&mut out, " (");
    push_decimal(&mut out, leaf.size as u64);
    push_str(&mut out, "B @ ");
    push_decimal(&mut out, leaf.offset as u64);
    push_str(&mut out, ") = ");
    let d = describe_typed_value(leaf.llvm_type.as_str(), bytes.as_slice());
    push_str(&mut out, d.as_str());
    Some(string_from(out.as_slice()))
}


/// The input flags as the harness's field table gives them: each named
/// field with whether its input flag is 1; unnamed fields are left out.
pub open spec fn table_flags(t: Seq<(Option<String>, i32)>) -> Seq<(Seq<char>, bool)> {
    crate::text::collect_some(
        t,
        |e: (Option<String>, i32)|
            match e.0 {
                Some(n) => Some((n@, e.1 == 1)),
                None => None,
            },
    )
}

/// Builds the input flags from the field table (name, input flag) of a
/// harness (see `table_flags`).
pub fn input_flags_from_table(table: &Vec<(Option<String>, i32)>) -> (r: InputFlags)
    ensures
        r.view_entries() == table_flags(table@),
{
    let ghost f = |e: (Option<String>, i32)|
        match e.0 {
            Some(n) => Some((n@, e.1 == 1)),
            None => None,
        };
    let mut entries: Vec<(String, bool)> = Vec::new();
    let mut i: usize = 0;
    while i < table.len()
        invariant
            i <= table@.len(),
            f == (|e: (Option<String>, i32)|
                match e.0 {
                    Some(n) => Some((n@, e.1 == 1)),
                    None => None,
                }),
            entries@.map_values(|e: (String, bool)| (e.0@, e.1)) == crate::text::collect_some(table@.take(i as int), f),
        decreases table@.len() - i,
    {
        proof { crate::text::lemma_collect_some_step(table@, i as int, f); }
        let ghost before = entries@;
        match &table[i].0 {
            Some(n) => {
                let name = string_from(chars_of(n.as_str()).as_slice());
                entries.push((name, table[i].1 == 1));
                assert(entries@.map_values(|e: (String, bool)| (e.0@, e.1)) =~= before.map_values(
                    |e: (String, bool)| (e.0@, e.1),
                ).push((n@, table@[i as int].1 == 1)));
            },
            None => {},
        }
        i += 1;
    }
    assert(table@.take(table@.len() as int) == table@);
    InputFlags { entries }
}

/// Whether a heartbeat is due: not when the last one was written less than
/// the interval (at least one second) ago; `elapsed_nanos` is the time since
/// then, when it is known.
pub open spec fn heartbeat_due_spec(elapsed_nanos: Option<u128>, interval_secs: u64) -> bool {
    let interval: int = if interval_secs == 0 { 1 } else { interval_secs as int };
    match elapsed_nanos {
        Some(d) => d >= interval * 1_000_000_000,
        None => true,
    }
}

/// Whether the heartbeat of a tag is due (see `heartbeat_due_spec`).
pub fn heartbeat_due(elapsed_nanos: Option<u128>, interval_secs: u64) -> (r: bool)
    ensures
        r == heartbeat_due_spec(elapsed_nanos, interval_secs),
{
    let secs: u128 = if interval_secs == 0 { 1 } else { interval_secs as u128 };
    match elapsed_nanos {
        Some(d) => d >= secs * 1_000_000_000,
        None => true,
    }
}

/// The heartbeat line for field `name` read through the harness's field
/// table when no layout is known: nothing for inputs, unnamed fields and the
/// vtable; `<empty>` for a field of no bytes; a read error when the harness
/// gave `got` bytes of `size`; else the value.
pub open spec fn table_field_line(
    tag: Seq<char>,
    is_input: i32,
    name: Option<Seq<char>>,
    size: usize,
    got: usize,
    bytes: Seq<u8>,
) -> Option<Seq<char>> {
    if is_input == 1 {
        None
    } else {
        match name {
            None => None,
            Some(n) => if n == "__vtable"@ {
                None
            } else if size == 0 {
                Some("["@ + tag + "]   "@ + n + " = <empty>"@)
            } else if got != size {
                Some(
                    "["@ + tag + "]   "@ + n + " = <read-error got="@ + decimal(got as nat) + " expected="@
                        + decimal(size as nat) + ">"@,
                )
            } else {
                Some("["@ + tag + "]   "@ + n + " ("@ + decimal(size as nat) + "B) = "@ + field_value_text(bytes))
            },
        }
    }
}

/// The heartbeat line of one field of the harness's field table (see
/// `table_field_line`); `bytes` is what the harness read for it.
pub fn table_heartbeat_line(
    tag: &str,
    is_input: i32,
    name: &Option<String>,
    size: usize,
    got: usize,
    bytes: &[u8],
) -> (r: Option<String>)
    ensures
        crate::ddg_graph::opt_chars(r) == table_field_line(
            tag@,
            is_input,
            match name {
                Some(n) => Some(n@),
                None => None,
            },
            size,
            got,
            bytes@,
        ),
{
    if is_input == 1 {
        return None;
    }
    let n = match name {
        Some(n) => n,
        None => {
            return None;
        },
    };
    if eq_str(chars_of(n.as_str()).as_slice(), "__vtable") {
        return None;
    }
    let mut out = chars_of("[");
    push_str(&mut out, tag);
    push_str(&mut out, "]   ");
    push_str(&mut out, n.as_str());
    if size == 0 {
        push_str(&mut out, " = <empty>");
    } else if got != size {
        push_str(&mut out, " = <read-error got=");
        push_decimal(&mut out, got as u64);
        push_str(&mut out, " expected=");
        push_decimal(&mut out, size as u64);
        push_str(&mut out, ">");
    } else {
        push_str(&mut out, " (");
        push_decimal(&mut out, size as u64);
        push_str(&mut out, "B) = ");
        let d = describe_field_value(bytes);
        push_str(&mut out, d.as_str());
    }
    Some(string_from(out.as_slice()))
}

} // verus!
