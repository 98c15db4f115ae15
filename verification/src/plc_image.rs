//! Byte-level access to the memory image of a compiled Structured Text
//! program instance, and the field offsets of the `HarnessTest` program that
//! the harness check drives.
use vstd::prelude::*;
use crate::go_explore::{with_i16_le, write_i16_le};
use crate::state_hash::{i16_from_le, i32_from_le, i8_from_le, le_signed};
use crate::text::{chars_of, push_all, push_signed, push_str, signed_decimal, string_from};

verus! {

/// Size of a `HarnessTest` instance.
pub const STRUCT_BYTES: usize = 72;
/// `A : INT` (input).
pub const OFFSET_A: usize = 0;
/// `B : INT` (input).
pub const OFFSET_B: usize = 2;
/// `Flag : BOOL` (input).
pub const OFFSET_FLAG: usize = 4;
/// `Index : INT` (input).
pub const OFFSET_INDEX: usize = 6;
/// `Sum : INT`.
pub const OFFSET_SUM: usize = 8;
/// `Product : DINT` (after two bytes of padding).
pub const OFFSET_PRODUCT: usize = 12;
/// `Buf : ARRAY[0..15] OF INT`.
pub const OFFSET_BUF: usize = 16;
/// The embedded `Counter` instance.
pub const OFFSET_C: usize = 48;
/// `CycleNum : INT`.
pub const OFFSET_CYCLENUM: usize = 64;
/// The counter's vtable pointer.
pub const OFFSET_C_VTABLE: usize = OFFSET_C + 0;
/// `C.Increment : INT`.
pub const OFFSET_C_INCREMENT: usize = OFFSET_C + 8;
/// `C.Reset : BOOL`.
pub const OFFSET_C_RESET: usize = OFFSET_C + 10;
/// `C.Value : INT`.
pub const OFFSET_C_VALUE: usize = OFFSET_C + 12;
/// `C.TotalCalls : INT`.
pub const OFFSET_C_TOTALCALLS: usize = OFFSET_C + 14;

/// The signed little-endian value of the `n` bytes of `mem` at `offset`.
pub open spec fn signed_at(mem: Seq<u8>, offset: int, n: int) -> int {
    le_signed(mem.subrange(offset, offset + n))
}

/// The byte that stores an `i8`.
pub open spec fn i8_byte(v: i8) -> u8 {
    if v < 0 {
        (v + 256) as u8
    } else {
        v as u8
    }
}

/// The `i8` stored at `offset`.
pub fn read_i8(mem: &[u8], offset: usize) -> (v: i8)
    requires
        offset < mem@.len(),
    ensures
        v as int == signed_at(mem@, offset as int, 1),
{
    assert(mem@.subrange(offset as int, offset + 1) =~= seq![mem@[offset as int]]);
    i8_from_le(mem[offset])
}

/// The little-endian `i16` stored at `offset`.
pub fn read_i16(mem: &[u8], offset: usize) -> (v: i16)
    requires
        offset + 2 <= mem@.len(),
    ensures
        v as int == signed_at(mem@, offset as int, 2),
{
    assert(mem@.subrange(offset as int, offset + 2) =~= seq![mem@[offset as int], mem@[offset + 1]]);
    i16_from_le(mem[offset], mem[offset + 1])
}

/// The little-endian `i32` stored at `offset`.
pub fn read_i32(mem: &[u8], offset: usize) -> (v: i32)
    requires
        offset + 4 <= mem@.len(),
    ensures
        v as int == signed_at(mem@, offset as int, 4),
{
    assert(mem@.subrange(offset as int, offset + 4) =~= seq![
        mem@[offset as int],
        mem@[offset + 1],
        mem@[offset + 2],
        mem@[offset + 3],
    ]);
    i32_from_le(mem[offset], mem[offset + 1], mem[offset + 2], mem[offset + 3])
}

/// Stores an `i8` at `offset`.
pub fn write_i8(mem: &mut Vec<u8>, offset: usize, value: i8)
    requires
        offset < old(mem)@.len(),
    ensures
        final(mem)@ == old(mem)@.update(offset as int, i8_byte(value)),
{
    let b: u8 = if value < 0 { (value as i16 + 256) as u8 } else { value as u8 };
    mem.set(offset, b);
}

/// Stores a little-endian `i16` at `offset`.
pub fn write_i16(mem: &mut Vec<u8>, offset: usize, value: i16)
    requires
        offset + 2 <= old(mem)@.len(),
    ensures
        final(mem)@ == with_i16_le(old(mem)@, offset as int, value),
{
    let n = mem.len();
    assert(offset + 2 <= n);
    write_i16_le(mem, offset, value);
}

/// Element `index` of `Buf`.
pub fn read_buf(mem: &[u8], index: usize) -> (v: i16)
    requires
        index < 16,
        OFFSET_BUF + 2 * index + 2 <= mem@.len(),
    ensures
        v as int == signed_at(mem@, OFFSET_BUF + 2 * index, 2),
{
    read_i16(mem, OFFSET_BUF + index * 2)
}

/// The image after the inputs `A`, `B`, `Flag` and `Index` are stored.
pub open spec fn with_inputs(mem: Seq<u8>, a: i16, b: i16, flag: bool, index: i16) -> Seq<u8> {
    let m = with_i16_le(with_i16_le(mem, OFFSET_A as int, a), OFFSET_B as int, b);
    with_i16_le(m.update(OFFSET_FLAG as int, if flag { 1u8 } else { 0u8 }), OFFSET_INDEX as int, index)
}

/// Stores the four inputs of one scan cycle.
pub fn set_inputs(mem: &mut Vec<u8>, a: i16, b: i16, flag: bool, index: i16)
    requires
        old(mem)@.len() >= OFFSET_INDEX + 2,
    ensures
        final(mem)@ == with_inputs(old(mem)@, a, b, flag, index),
{
    write_i16(mem, OFFSET_A, a);
    write_i16(mem, OFFSET_B, b);
    write_i8(mem, OFFSET_FLAG, if flag { 1i8 } else { 0i8 });
    write_i16(mem, OFFSET_INDEX, index);
}

/// The first `n` elements of `Buf`, in decimal, separated by `", "`.
pub open spec fn buf_items(mem: Seq<u8>, n: nat) -> Seq<char>
    decreases n,
{
    if n == 0 {
        Seq::empty()
    } else if n == 1 {
        signed_decimal(signed_at(mem, OFFSET_BUF as int, 2))
    } else {
        buf_items(mem, (n - 1) as nat) + ", "@ + signed_decimal(signed_at(mem, OFFSET_BUF + 2 * (n - 1), 2))
    }
}

/// The printed state of an instance: the inputs, the outputs, `Buf` and the
/// counter, one line each after a header with the label.
pub open spec fn state_summary_text(mem: Seq<u8>, label: Seq<char>) -> Seq<char> {
    "--- "@ + label + " ---\n"@
        + "  Inputs : A="@ + signed_decimal(signed_at(mem, OFFSET_A as int, 2))
        + " B="@ + signed_decimal(signed_at(mem, OFFSET_B as int, 2))
        + " Flag="@ + signed_decimal(signed_at(mem, OFFSET_FLAG as int, 1))
        + " Index="@ + signed_decimal(signed_at(mem, OFFSET_INDEX as int, 2)) + "\n"@
        + "  Outputs: Sum="@ + signed_decimal(signed_at(mem, OFFSET_SUM as int, 2))
        + " Product="@ + signed_decimal(signed_at(mem, OFFSET_PRODUCT as int, 4))
        + " CycleNum="@ + signed_decimal(signed_at(mem, OFFSET_CYCLENUM as int, 2)) + "\n"@
        + "  Buf    : ["@ + buf_items(mem, 16) + "]\n"@
        + "  Counter: Value="@ + signed_decimal(signed_at(mem, OFFSET_C_VALUE as int, 2))
        + " TotalCalls="@ + signed_decimal(signed_at(mem, OFFSET_C_TOTALCALLS as int, 2)) + "\n"@
}

fn push_field(out: &mut Vec<char>, name: &str, v: i64)
    ensures
        final(out)@ == old(out)@ + name@ + signed_decimal(v as int),
{
    push_str(out, name);
    push_signed(out, v);
}

fn buf_text(mem: &[u8]) -> (r: Vec<char>)
    requires
        mem@.len() >= OFFSET_BUF + 32,
    ensures
        r@ == buf_items(mem@, 16),
{
    let mut out: Vec<char> = Vec::new();
    let mut i: usize = 0;
    while i < 16
        invariant
            i <= 16,
            mem@.len() >= OFFSET_BUF + 32,
            out@ == buf_items(mem@, i as nat),
        decreases 16 - i,
    {
        if i > 0 {
            push_str(&mut out, ", ");
        }
        let v = read_buf(mem, i);
        push_signed(&mut out, v as i64);
        proof {
            if i == 0 {
                assert(out@ =~= buf_items(mem@, 1));
            }
        }
        i += 1;
    }
    out
}

/// The state report of an instance (see `state_summary_text`).
pub fn state_summary(mem: &[u8], label: &str) -> (r: String)
    requires
        mem@.len() >= OFFSET_CYCLENUM + 2,
    ensures
        r@ == state_summary_text(mem@, label@),
{
    let mut out = chars_of("--- ");
    push_str(&mut out, label);
    push_str(&mut out, " ---\n");
    push_field(&mut out, "  Inputs : A=", read_i16(mem, OFFSET_A) as i64);
    push_field(&mut out, " B=", read_i16(mem, OFFSET_B) as i64);
    push_field(&mut out, " Flag=", read_i8(mem, OFFSET_FLAG) as i64);
    push_field(&mut out, " Index=", read_i16(mem, OFFSET_INDEX) as i64);
    push_str(&mut out, "\n");
    push_field(&mut out, "  Outputs: Sum=", read_i16(mem, OFFSET_SUM) as i64);
    push_field(&mut out, " Product=", read_i32(mem, OFFSET_PRODUCT) as i64);
    push_field(&mut out, " CycleNum=", read_i16(mem, OFFSET_CYCLENUM) as i64);
    push_str(&mut out, "\n");
    push_str(&mut out, "  Buf    : [");
    let items = buf_text(mem);
    push_all(&mut out, items.as_slice());
    push_str(&mut out, "]\n");
    push_field(&mut out, "  Counter: Value=", read_i16(mem, OFFSET_C_VALUE) as i64);
    push_field(&mut out, " TotalCalls=", read_i16(mem, OFFSET_C_TOTALCALLS) as i64);
    push_str(&mut out, "\n");
    string_from(out.as_slice())
}

/// The message of a failed comparison: `"<label>: expected <e> got <g>"`.
pub open spec fn mismatch_text(label: Seq<char>, expected: int, got: int) -> Seq<char> {
    label + ": expected "@ + signed_decimal(expected) + " got "@ + signed_decimal(got)
}

fn mismatch_message(label: &str, expected: i64, got: i64) -> (r: String)
    ensures
        r@ == mismatch_text(label@, expected as int, got as int),
{
    let mut out = chars_of(label);
    push_field(&mut out, ": expected ", expected);
    push_field(&mut out, " got ", got);
    string_from(out.as_slice())
}

/// Compares the `i16` at `offset` with `expected`: `None` when they agree,
/// else the failure message.
pub fn i16_mismatch(mem: &[u8], offset: usize, expected: i16, label: &str) -> (r: Option<String>)
    requires
        offset + 2 <= mem@.len(),
    ensures
        r is None <==> signed_at(mem@, offset as int, 2) == expected as int,
        r matches Some(m) ==> m@ == mismatch_text(label@, expected as int, signed_at(mem@, offset as int, 2)),
{
    let got = read_i16(mem, offset);
    if got == expected {
        None
    } else {
        Some(mismatch_message(label, expected as i64, got as i64))
    }
}

/// Compares the `i32` at `offset` with `expected`: `None` when they agree,
/// else the failure message.
pub fn i32_mismatch(mem: &[u8], offset: usize, expected: i32, label: &str) -> (r: Option<String>)
    requires
        offset + 4 <= mem@.len(),
    ensures
        r is None <==> signed_at(mem@, offset as int, 4) == expected as int,
        r matches Some(m) ==> m@ == mismatch_text(label@, expected as int, signed_at(mem@, offset as int, 4)),
{
    let got = read_i32(mem, offset);
    if got == expected {
        None
    } else {
        Some(mismatch_message(label, expected as i64, got as i64))
    }
}

/// The instance the coverage fuzzer runs for a testcase: a zeroed
/// `HarnessTest` whose `A`, `B`, `Flag` and `Index` take the testcase's first
/// seven bytes in order.
pub open spec fn fuzz_instance_spec(b: Seq<u8>) -> Seq<u8> {
    Seq::new(
        STRUCT_BYTES as nat,
        |k: int|
            if k < 5 {
                b[k]
            } else if k == 6 || k == 7 {
                b[k - 1]
            } else {
                0u8
            },
    )
}

proof fn lemma_i16_bytes_roundtrip(lo: u8, hi: u8, v: i16)
    requires
        v as int == le_signed(seq![lo, hi]),
    ensures
        ({
            let u: int = if v < 0 { v + 65536 } else { v as int };
            (u % 256) as u8 == lo && (u / 256) as u8 == hi
        }),
{
    assert(seq![lo, hi][0] == lo && seq![lo, hi][1] == hi);
    let u: int = if v < 0 { v + 65536 } else { v as int };
    assert(u == lo + 256 * hi);
}

/// The instance for a testcase of at least seven bytes (see
/// `fuzz_instance_spec`); `None` for a shorter one, which is not run.
pub fn fuzz_instance(bytes: &[u8]) -> (r: Option<Vec<u8>>)
    ensures
        r is None <==> bytes@.len() < 7,
        r matches Some(m) ==> m@ == fuzz_instance_spec(bytes@),
{
    if bytes.len() < 7 {
        return None;
    }
    let mut inst: Vec<u8> = Vec::new();
    let mut i: usize = 0;
    while i < STRUCT_BYTES
        invariant
            i <= STRUCT_BYTES,
            inst@ == Seq::new(i as nat, |k: int| 0u8),
        decreases STRUCT_BYTES - i,
    {
        inst.push(0u8);
        i += 1;
        assert(inst@ =~= Seq::new(i as nat, |k: int| 0u8));
    }
    let a = i16_from_le(bytes[0], bytes[1]);
    let b = i16_from_le(bytes[2], bytes[3]);
    let index = i16_from_le(bytes[5], bytes[6]);
    proof {
        lemma_i16_bytes_roundtrip(bytes@[0], bytes@[1], a);
        lemma_i16_bytes_roundtrip(bytes@[2], bytes@[3], b);
        lemma_i16_bytes_roundtrip(bytes@[5], bytes@[6], index);
    }
    write_i16(&mut inst, OFFSET_A, a);
    write_i16(&mut inst, OFFSET_B, b);
    let flag = i8_from_le(bytes[4]);
    write_i8(&mut inst, OFFSET_FLAG, flag);
    write_i16(&mut inst, OFFSET_INDEX, index);
    assert(i8_byte(flag) == bytes@[4]) by {
        assert(seq![bytes@[4]][0] == bytes@[4]);
    }
    assert(inst@ =~= fuzz_instance_spec(bytes@));
    Some(inst)
}

/// Reading an `i16` back where it was written gives the value written.
pub proof fn lemma_i16_write_read(mem: Seq<u8>, offset: int, value: i16)
    requires
        0 <= offset,
        offset + 2 <= mem.len(),
    ensures
        signed_at(with_i16_le(mem, offset, value), offset, 2) == value as int,
{
    let w = with_i16_le(mem, offset, value);
    let u: int = if value < 0 { value + 65536 } else { value as int };
    assert(w.subrange(offset, offset + 2) =~= seq![(u % 256) as u8, (u / 256) as u8]);
}

/// Reading an `i8` back where it was written gives the value written.
pub proof fn lemma_i8_write_read(mem: Seq<u8>, offset: int, value: i8)
    requires
        0 <= offset < mem.len(),
    ensures
        signed_at(mem.update(offset, i8_byte(value)), offset, 1) == value as int,
{
    assert(mem.update(offset, i8_byte(value)).subrange(offset, offset + 1) =~= seq![i8_byte(value)]);
}

} // verus!
