//! The decisions of the harness sanity check: which answers of a generated
//! harness library are accepted, and the message of each refusal.
//!
//! The check drives the library through its C interface (allocate, look up
//! the fields `Delta`, `Reset`, `Enable`, `Accumulator`, `CycleNum`,
//! `EdgeCount` and `Armed`, set inputs, step, snapshot, restore, run); every
//! answer it gets back is judged by one of the functions here.
use vstd::prelude::*;
use crate::state_hash::{i16_from_le, le_signed};
use crate::text::{chars_of, decimal, push_decimal, push_signed, push_str, signed_decimal, string_from};

verus! {

/// A refusal with `msg`.
pub fn fail<T>(msg: String) -> (r: Result<T, String>)
    ensures
        r matches Err(m) && m@ == msg@,
{
    Err(msg)
}

/// `Ok` when `condition` holds, else a refusal with `msg`.
pub fn require(condition: bool, msg: String) -> (r: Result<(), String>)
    ensures
        condition <==> r is Ok,
        r matches Err(m) ==> m@ == msg@,
{
    if condition {
        Ok(())
    } else {
        fail(msg)
    }
}

/// `a`, the decimal `n`, then `b`.
pub open spec fn with_num(a: Seq<char>, n: nat, b: Seq<char>) -> Seq<char> {
    a + decimal(n) + b
}

fn text_num(a: &str, n: u64, b: &str) -> (r: String)
    ensures
        r@ == with_num(a@, n as nat, b@),
{
    let mut out = chars_of(a);
    push_decimal(&mut out, n);
    push_str(&mut out, b);
    string_from(out.as_slice())
}

fn text_int(a: &str, x: i64, b: &str) -> (r: String)
    ensures
        r@ == a@ + signed_decimal(x as int) + b@,
{
    let mut out = chars_of(a);
    push_signed(&mut out, x);
    push_str(&mut out, b);
    string_from(out.as_slice())
}

// ---------------------------------------------------------------------------
// Harness dimensions
// ---------------------------------------------------------------------------

/// The first refusal of the reported dimensions, in the order the check
/// makes them, or `None` when all are accepted.
pub open spec fn dimensions_refusal(field_count: u32, input_size: usize, state_size: usize, struct_size: usize) -> Option<
    Seq<char>,
> {
    if field_count == 0 {
        Some("prism_field_count must be > 0"@)
    } else if input_size < 4 {
        Some(with_num("prism_input_size too small: "@, input_size as nat, ""@))
    } else if state_size == 0 {
        Some("prism_state_size must be > 0"@)
    } else if struct_size == 0 {
        Some("prism_struct_size must be > 0"@)
    } else {
        None
    }
}

/// Judges the dimensions the library reports: at least one field, an input
/// frame of at least 4 bytes, a nonempty state and a nonempty instance.
pub fn check_dimensions(field_count: u32, input_size: usize, state_size: usize, struct_size: usize) -> (r: Result<
    (),
    String,
>)
    ensures
        r is Ok <==> dimensions_refusal(field_count, input_size, state_size, struct_size) is None,
        r matches Err(m) ==> Some(m@) == dimensions_refusal(field_count, input_size, state_size, struct_size),
{
    require(field_count > 0, String::from_str("prism_field_count must be > 0"))?;
    require(input_size >= 4, text_num("prism_input_size too small: ", input_size as u64, ""))?;
    require(state_size > 0, String::from_str("prism_state_size must be > 0"))?;
    require(struct_size > 0, String::from_str("prism_struct_size must be > 0"))
}

// ---------------------------------------------------------------------------
// Field lookup
// ---------------------------------------------------------------------------

/// The outcome of looking `name` up in the field table from index `i` on:
/// the first index whose name is `name`, unless a missing name comes first.
pub open spec fn field_lookup(names: Seq<Option<String>>, name: Seq<char>, i: int) -> Result<int, Seq<char>>
    decreases names.len() - i,
{
    if i >= names.len() {
        Err("field not found: "@ + name)
    } else {
        match names[i] {
            None => Err(with_num("prism_field_name("@, i as nat, ") returned null"@)),
            Some(n) => if n@ == name {
                Ok(i)
            } else {
                field_lookup(names, name, i + 1)
            },
        }
    }
}

/// The index of the field called `name` in the field table (`None` stands
/// for a name the library did not give).
pub fn find_field(names: &Vec<Option<String>>, name: &str) -> (r: Result<u32, String>)
    requires
        names@.len() <= u32::MAX,
    ensures
        match (r, field_lookup(names@, name@, 0)) {
            (Ok(idx), Ok(i)) => idx == i,
            (Err(m), Err(t)) => m@ == t,
            _ => false,
        },
{
    let mut i: usize = 0;
    while i < names.len()
        invariant
            i <= names@.len() <= u32::MAX,
            field_lookup(names@, name@, 0) == field_lookup(names@, name@, i as int),
        decreases names@.len() - i,
    {
        match &names[i] {
            None => {
                return fail(text_num("prism_field_name(", i as u64, ") returned null"));
            },
            Some(n) => {
                let cs = chars_of(n.as_str());
                if crate::text::eq_str(cs.as_slice(), name) {
                    return Ok(i as u32);
                }
            },
        }
        i += 1;
    }
    let mut out = chars_of("field not found: ");
    push_str(&mut out, name);
    fail(string_from(out.as_slice()))
}

/// Judges the input flags of `Delta`, `Reset` and `Enable` (each 1 for an
/// input field).
pub fn check_input_flags(delta: i32, reset: i32, enable: i32) -> (r: Result<(), String>)
    ensures
        r is Ok <==> (delta == 1 && reset == 1 && enable == 1),
        r matches Err(m) ==> m@ == "expected Delta/Reset/Enable to be input fields"@,
{
    require(
        delta == 1 && reset == 1 && enable == 1,
        String::from_str("expected Delta/Reset/Enable to be input fields"),
    )
}

// ---------------------------------------------------------------------------
// Field access
// ---------------------------------------------------------------------------

/// Judges a write of `len` bytes into field `idx`, whose size the library
/// gives as `expected_size`.
pub fn check_field_size(idx: u32, expected_size: usize, len: usize) -> (r: Result<(), String>)
    ensures
        r is Ok <==> expected_size == len,
        r matches Err(m) ==> m@ == with_num("field size mismatch at idx="@, idx as nat, ": expected "@) + decimal(
            expected_size as nat,
        ) + ", got "@ + decimal(len as nat),
{
    if expected_size == len {
        Ok(())
    } else {
        let mut out = chars_of("field size mismatch at idx=");
        push_decimal(&mut out, idx as u64);
        push_str(&mut out, ": expected ");
        push_decimal(&mut out, expected_size as u64);
        push_str(&mut out, ", got ");
        push_decimal(&mut out, len as u64);
        fail(string_from(out.as_slice()))
    }
}

/// Judges the status the library returns for a field write (1 on success).
pub fn check_set_status(idx: u32, ok: i32) -> (r: Result<(), String>)
    ensures
        r is Ok <==> ok == 1,
        r matches Err(m) ==> m@ == with_num("prism_set_field failed at idx="@, idx as nat, ""@),
{
    require(ok == 1, text_num("prism_set_field failed at idx=", idx as u64, ""))
}

/// The bytes written into an `i16` field (`i16::to_le_bytes`).
pub fn i16_field_bytes(value: i16) -> (r: Vec<u8>)
    ensures
        r@.len() == 2,
        le_signed(r@) == value as int,
{
    let u: u32 = if value < 0 { (value as i32 + 65536) as u32 } else { value as u32 };
    let mut r: Vec<u8> = Vec::new();
    r.push((u % 256) as u8);
    r.push((u / 256) as u8);
    r
}

/// The byte written into a flag field.
pub fn bool_field_bytes(value: bool) -> (r: Vec<u8>)
    ensures
        r@ == seq![if value { 1u8 } else { 0u8 }],
{
    let mut r: Vec<u8> = Vec::new();
    r.push(if value { 1u8 } else { 0u8 });
    r
}

/// Judges a field read: the library must report as many bytes as the
/// field's size.
pub fn check_read_size(idx: u32, got: usize, size: usize) -> (r: Result<(), String>)
    ensures
        r is Ok <==> got == size,
        r matches Err(m) ==> m@ == with_num("prism_get_field size mismatch at idx="@, idx as nat, ": got "@) + decimal(
            got as nat,
        ) + ", expected "@ + decimal(size as nat),
{
    if got == size {
        Ok(())
    } else {
        let mut out = chars_of("prism_get_field size mismatch at idx=");
        push_decimal(&mut out, idx as u64);
        push_str(&mut out, ": got ");
        push_decimal(&mut out, got as u64);
        push_str(&mut out, ", expected ");
        push_decimal(&mut out, size as u64);
        fail(string_from(out.as_slice()))
    }
}

/// The value of an `i16` field from its bytes; refused unless there are two.
pub fn decode_field_i16(idx: u32, bytes: &[u8]) -> (r: Result<i16, String>)
    ensures
        r is Ok <==> bytes@.len() == 2,
        r matches Ok(v) ==> v as int == le_signed(bytes@),
        r matches Err(m) ==> m@ == with_num("field idx="@, idx as nat, " is not i16-sized"@),
{
    if bytes.len() != 2 {
        return fail(text_num("field idx=", idx as u64, " is not i16-sized"));
    }
    assert(bytes@ =~= seq![bytes@[0], bytes@[1]]);
    Ok(i16_from_le(bytes[0], bytes[1]))
}

/// The value of a flag field from its byte; refused unless there is one.
pub fn decode_field_bool(idx: u32, bytes: &[u8]) -> (r: Result<bool, String>)
    ensures
        r is Ok <==> bytes@.len() == 1,
        r matches Ok(b) ==> b == (bytes@[0] != 0),
        r matches Err(m) ==> m@ == with_num("field idx="@, idx as nat, " is not bool-sized"@),
{
    if bytes.len() != 1 {
        return fail(text_num("field idx=", idx as u64, " is not bool-sized"));
    }
    Ok(bytes[0] != 0)
}

// ---------------------------------------------------------------------------
// Behaviour of the program under test
// ---------------------------------------------------------------------------

/// The first refusal after three scan cycles at `Delta = 4` with `Enable`
/// set: `CycleNum` 3, `Accumulator` 12, `EdgeCount` 1 and `Armed` set.
pub open spec fn scan_refusal(cycle: i16, acc: i16, edge_count: i16, armed: bool) -> Option<Seq<char>> {
    if cycle != 3 {
        Some("scan cycle failed: CycleNum="@ + signed_decimal(cycle as int) + ", expected 3"@)
    } else if acc != 12 {
        Some("accumulator failed: Accumulator="@ + signed_decimal(acc as int) + ", expected 12"@)
    } else if edge_count != 1 {
        Some("edge tracking failed: EdgeCount="@ + signed_decimal(edge_count as int) + ", expected 1"@)
    } else if !armed {
        Some("Armed expected true after 3 cycles at Delta=4"@)
    } else {
        None
    }
}

/// Judges the state after the first three scan cycles.
pub fn check_scan(cycle: i16, acc: i16, edge_count: i16, armed: bool) -> (r: Result<(), String>)
    ensures
        r is Ok <==> scan_refusal(cycle, acc, edge_count, armed) is None,
        r matches Err(m) ==> Some(m@) == scan_refusal(cycle, acc, edge_count, armed),
{
    require(cycle == 3, text_int("scan cycle failed: CycleNum=", cycle as i64, ", expected 3"))?;
    require(acc == 12, text_int("accumulator failed: Accumulator=", acc as i64, ", expected 12"))?;
    require(edge_count == 1, text_int("edge tracking failed: EdgeCount=", edge_count as i64, ", expected 1"))?;
    require(armed, String::from_str("Armed expected true after 3 cycles at Delta=4"))
}

/// Judges `CycleNum` after one more step: it must be 4.
pub fn check_step(cycle: i16) -> (r: Result<(), String>)
    ensures
        r is Ok <==> cycle == 4,
        r matches Err(m) ==> m@ == "step progression failed: CycleNum="@ + signed_decimal(cycle as int)
            + ", expected 4"@,
{
    require(cycle == 4, text_int("step progression failed: CycleNum=", cycle as i64, ", expected 4"))
}

/// The first refusal after the snapshot is restored: `CycleNum` back at 3
/// and `Accumulator` back at 12.
pub open spec fn restore_refusal(cycle: i16, acc: i16) -> Option<Seq<char>> {
    if cycle != 3 {
        Some("state restore failed for CycleNum: "@ + signed_decimal(cycle as int) + ", expected 3"@)
    } else if acc != 12 {
        Some("state restore failed for Accumulator: "@ + signed_decimal(acc as int) + ", expected 12"@)
    } else {
        None
    }
}

/// Judges the state after the snapshot is restored.
pub fn check_restore(cycle: i16, acc: i16) -> (r: Result<(), String>)
    ensures
        r is Ok <==> restore_refusal(cycle, acc) is None,
        r matches Err(m) ==> Some(m@) == restore_refusal(cycle, acc),
{
    require(cycle == 3, text_int("state restore failed for CycleNum: ", cycle as i64, ", expected 3"))?;
    require(acc == 12, text_int("state restore failed for Accumulator: ", acc as i64, ", expected 12"))
}

/// The first refusal after a reset and one run on `run_input()`: `CycleNum`
/// 1 and `Accumulator` 4.
pub open spec fn run_refusal(cycle: i16, acc: i16) -> Option<Seq<char>> {
    if cycle != 1 {
        Some("prism_run cycle failed: CycleNum="@ + signed_decimal(cycle as int) + ", expected 1"@)
    } else if acc != 4 {
        Some("prism_run input mapping failed: Accumulator="@ + signed_decimal(acc as int) + ", expected 4"@)
    } else {
        None
    }
}

/// Judges the state after one run from reset.
pub fn check_run(cycle: i16, acc: i16) -> (r: Result<(), String>)
    ensures
        r is Ok <==> run_refusal(cycle, acc) is None,
        r matches Err(m) ==> Some(m@) == run_refusal(cycle, acc),
{
    require(cycle == 1, text_int("prism_run cycle failed: CycleNum=", cycle as i64, ", expected 1"))?;
    require(acc == 4, text_int("prism_run input mapping failed: Accumulator=", acc as i64, ", expected 4"))
}

/// The input frame of the final run: `Delta = 4`, `Reset` clear, `Enable` set.
pub fn run_input() -> (r: Vec<u8>)
    ensures
        r@ == seq![4u8, 0u8, 0u8, 1u8],
{
    let mut r: Vec<u8> = Vec::new();
    r.push(4u8);
    r.push(0u8);
    r.push(0u8);
    r.push(1u8);
    r
}

/// The closing report line of a passed check.
pub open spec fn summary_text(field_count: u32, input_size: usize, state_size: usize, struct_size: usize) -> Seq<char> {
    "[prism-sanity] fields="@ + decimal(field_count as nat) + " input_size="@ + decimal(input_size as nat)
        + " state_size="@ + decimal(state_size as nat) + " struct_size="@ + decimal(struct_size as nat)
}

/// The closing report line of a passed check.
pub fn sanity_summary(field_count: u32, input_size: usize, state_size: usize, struct_size: usize) -> (r: String)
    ensures
        r@ == summary_text(field_count, input_size, state_size, struct_size),
{
    let mut out = chars_of("[prism-sanity] fields=");
    push_decimal(&mut out, field_count as u64);
    push_str(&mut out, " input_size=");
    push_decimal(&mut out, input_size as u64);
    push_str(&mut out, " state_size=");
    push_decimal(&mut out, state_size as u64);
    push_str(&mut out, " struct_size=");
    push_decimal(&mut out, struct_size as u64);
    string_from(out.as_slice())
}

} // verus!
