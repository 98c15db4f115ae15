//! State-hash bucketing: which shared-memory slot a program state lights up,
//! and how good a snapshot is for further exploration.
use vstd::prelude::*;
use crate::text::{chars_of, copy_of, eq_str};

verus! {

/// Size of the edge-coverage map.
pub const COV_MAP_SIZE: usize = 65536;

/// Size of the state-hash map: the slots of all state fields together.
pub const STATE_MAP_SIZE: usize = 1024;

/// One field of the state-hash configuration file, as read.
#[derive(Debug, Clone)]
pub struct StateHashFieldRaw {
    pub name: String,
    pub absolute_byte_offset: usize,
    pub byte_size: usize,
    pub bucket_scheme: String,
    pub thresholds: Vec<i32>,
    pub bucket_count: usize,
    pub high_watermark: bool,
}

/// The state-hash configuration file, as read.
#[derive(Debug, Clone)]
pub struct StateHashConfigRaw {
    pub program: String,
    pub total_macro_states: u64,
    pub fields: Vec<StateHashFieldRaw>,
}

/// How a field value is mapped to a bucket.
#[derive(Debug, Clone, Copy, PartialEq, Eq, Structural)]
pub enum BucketScheme {
    Identity,
    ThresholdFine,
    ThresholdLog2,
    RawCapped,
    Binary,
}

/// A state field with its slots in the state-hash map.
#[derive(Debug, Clone)]
pub struct StateHashField {
    pub name: String,
    pub absolute_byte_offset: usize,
    pub byte_size: usize,
    pub bucket_scheme: BucketScheme,
    pub thresholds: Vec<i32>,
    pub bucket_count: usize,
    pub high_watermark: bool,
    pub shmem_base: usize,
}

/// A state variable that gates the growth of the discriminant.
#[derive(Debug, Clone)]
pub struct SubAccumulatorField {
    pub name: String,
    pub byte_offset: usize,
    pub byte_size: usize,
}

/// The scheme a configuration name selects; unknown names mean `Binary`.
pub open spec fn scheme_of(name: Seq<char>) -> BucketScheme {
    if name == "identity"@ {
        BucketScheme::Identity
    } else if name == "threshold_fine"@ {
        BucketScheme::ThresholdFine
    } else if name == "threshold_log2"@ {
        BucketScheme::ThresholdLog2
    } else if name == "raw_capped"@ {
        BucketScheme::RawCapped
    } else {
        BucketScheme::Binary
    }
}

fn scheme_from_name(name: &String) -> (s: BucketScheme)
    ensures
        s == scheme_of(name@),
{
    let n = chars_of(name.as_str());
    if eq_str(n.as_slice(), "identity") {
        BucketScheme::Identity
    } else if eq_str(n.as_slice(), "threshold_fine") {
        BucketScheme::ThresholdFine
    } else if eq_str(n.as_slice(), "threshold_log2") {
        BucketScheme::ThresholdLog2
    } else if eq_str(n.as_slice(), "raw_capped") {
        BucketScheme::RawCapped
    } else {
        BucketScheme::Binary
    }
}

/// Slots given to a field whose slots would start at `base`: its
/// `bucket_count`, at least 1 and at most what is left of the map.
pub open spec fn slot_count(requested: int, base: int) -> int {
    let c = if requested < 1 { 1 } else { requested };
    if c < STATE_MAP_SIZE - base { c } else { STATE_MAP_SIZE - base }
}

/// First slot of field `i` when fields are laid out one after the other.
pub open spec fn slot_base(raw: Seq<StateHashFieldRaw>, i: int) -> int
    decreases i,
{
    if i <= 0 {
        0
    } else {
        slot_base(raw, i - 1) + slot_count(raw[i - 1].bucket_count as int, slot_base(raw, i - 1))
    }
}

/// Number of fields that get slots: fields are taken in order until the map
/// is full.
pub open spec fn fields_placed(raw: Seq<StateHashFieldRaw>, n: int) -> bool {
    &&& 0 <= n <= raw.len()
    &&& forall|i: int| 0 <= i < n ==> #[trigger] slot_base(raw, i) < STATE_MAP_SIZE
    &&& (n == raw.len() || slot_base(raw, n) >= STATE_MAP_SIZE)
}

/// The field made of raw field `r` with its slots starting at `base`.
pub open spec fn placed_field(f: StateHashField, r: StateHashFieldRaw, base: int) -> bool {
    &&& f.name@ == r.name@
    &&& f.absolute_byte_offset == r.absolute_byte_offset
    &&& f.byte_size == r.byte_size
    &&& f.bucket_scheme == scheme_of(r.bucket_scheme@)
    &&& f.thresholds@ == r.thresholds@
    &&& f.bucket_count == slot_count(r.bucket_count as int, base)
    &&& f.high_watermark == r.high_watermark
    &&& f.shmem_base == base
}

/// The slots of `fields` are consecutive, non-empty, and all inside the map.
pub open spec fn slots_well_laid(fields: Seq<StateHashField>) -> bool {
    &&& forall|i: int| 0 <= i < fields.len() ==> 1 <= #[trigger] fields[i].bucket_count
    &&& forall|i: int| 0 <= i < fields.len() ==> #[trigger] fields[i].shmem_base
        + fields[i].bucket_count <= STATE_MAP_SIZE
    &&& forall|i: int| 0 < i < fields.len() ==> #[trigger] fields[i].shmem_base == fields[i
        - 1].shmem_base + fields[i - 1].bucket_count
    &&& fields.len() > 0 ==> fields[0].shmem_base == 0
}

proof fn lemma_slot_base_bounded(raw: Seq<StateHashFieldRaw>, i: int)
    requires
        0 <= i,
        forall|j: int| 0 <= j < i ==> #[trigger] slot_base(raw, j) < STATE_MAP_SIZE,
    ensures
        0 <= slot_base(raw, i) <= STATE_MAP_SIZE,
    decreases i,
{
    if i > 0 {
        lemma_slot_base_bounded(raw, i - 1);
    }
}

/// Gives each configured field its slots in the state-hash map, in order,
/// until the map is full; fields that do not fit are left out.
pub fn parse_state_hash_config(raw: StateHashConfigRaw) -> (fields: Vec<StateHashField>)
    ensures
        fields_placed(raw.fields@, fields@.len() as int),
        forall|i: int|
            0 <= i < fields@.len() ==> placed_field(
                #[trigger] fields@[i],
                raw.fields@[i],
                slot_base(raw.fields@, i),
            ),
        slots_well_laid(fields@),
{
    let mut fields: Vec<StateHashField> = Vec::new();
    let mut shmem_base: usize = 0;
    let mut i: usize = 0;
    let ghost rf = raw.fields@;
    while i < raw.fields.len() && shmem_base < STATE_MAP_SIZE
        invariant
            i <= rf.len(),
            rf == raw.fields@,
            fields@.len() == i,
            shmem_base == slot_base(rf, i as int),
            forall|j: int| 0 <= j < i ==> #[trigger] slot_base(rf, j) < STATE_MAP_SIZE,
            forall|j: int|
                0 <= j < i ==> placed_field(#[trigger] fields@[j], rf[j], slot_base(rf, j)),
            shmem_base <= STATE_MAP_SIZE,
        decreases rf.len() - i,
    {
        let f = &raw.fields[i];
        let c = if f.bucket_count < 1 { 1 } else { f.bucket_count };
        let bucket_count = if c < STATE_MAP_SIZE - shmem_base { c } else { STATE_MAP_SIZE - shmem_base };
        let scheme = scheme_from_name(&f.bucket_scheme);
        fields.push(StateHashField {
            name: f.name.clone(),
            absolute_byte_offset: f.absolute_byte_offset,
            byte_size: f.byte_size,
            bucket_scheme: scheme,
            thresholds: copy_of(f.thresholds.as_slice()),
            bucket_count,
            high_watermark: f.high_watermark,
            shmem_base,
        });
        shmem_base += bucket_count;
        i += 1;
    }
    proof {
        lemma_slot_base_bounded(rf, i as int);
        assert forall|k: int| 0 < k < fields@.len() implies #[trigger] fields@[k].shmem_base
            == fields@[k - 1].shmem_base + fields@[k - 1].bucket_count by {
            assert(placed_field(fields@[k], rf[k], slot_base(rf, k)));
            assert(placed_field(fields@[k - 1], rf[k - 1], slot_base(rf, k - 1)));
        }
        assert forall|k: int| 0 <= k < fields@.len() implies #[trigger] fields@[k].shmem_base
            + fields@[k].bucket_count <= STATE_MAP_SIZE && 1 <= fields@[k].bucket_count by {
            assert(placed_field(fields@[k], rf[k], slot_base(rf, k)));
            assert(slot_base(rf, k) < STATE_MAP_SIZE);
        }
        if fields@.len() > 0 {
            assert(placed_field(fields@[0], rf[0], slot_base(rf, 0)));
        }
    }
    fields
}

// ---------------------------------------------------------------------------
// Reading state values
// ---------------------------------------------------------------------------

/// Little-endian two's-complement value of `bytes` (1, 2 or 4 of them).
pub open spec fn le_signed(bytes: Seq<u8>) -> int {
    if bytes.len() == 1 {
        if bytes[0] >= 128 { bytes[0] - 256 } else { bytes[0] as int }
    } else if bytes.len() == 2 {
        let u = bytes[0] + 256 * bytes[1];
        if u >= 0x8000 { u - 0x10000 } else { u }
    } else if bytes.len() == 4 {
        let u = bytes[0] + 256 * bytes[1] + 65536 * bytes[2] + 16777216 * bytes[3];
        if u >= 0x8000_0000 { u - 0x1_0000_0000 } else { u }
    } else {
        0
    }
}

/// Value of the `size`-byte integer at `offset` in `buf`; 0 when it does not
/// fit in `buf`, when `size` is 0, or when `size` is not 1, 2 or 4.
pub open spec fn read_i32_spec(buf: Seq<u8>, offset: int, size: int) -> int {
    if offset + size > buf.len() || size == 0 {
        0
    } else if size == 1 || size == 2 || size == 4 {
        le_signed(buf.subrange(offset, offset + size))
    } else {
        0
    }
}

/// `i16::from_le_bytes`.
pub fn i16_from_le(lo: u8, hi: u8) -> (v: i16)
    ensures
        v as int == le_signed(seq![lo, hi]),
{
    let u: u32 = lo as u32 + 256 * (hi as u32);
    if u >= 0x8000 {
        (u as i32 - 0x10000) as i16
    } else {
        u as i16
    }
}

/// `i32::from_le_bytes`.
pub fn i32_from_le(b0: u8, b1: u8, b2: u8, b3: u8) -> (v: i32)
    ensures
        v as int == le_signed(seq![b0, b1, b2, b3]),
{
    let u: u64 = b0 as u64 + 256 * (b1 as u64) + 65536 * (b2 as u64) + 16777216 * (b3 as u64);
    if u >= 0x8000_0000 {
        (u as i64 - 0x1_0000_0000) as i32
    } else {
        u as i32
    }
}

/// `i8::from_le_bytes`.
pub fn i8_from_le(b: u8) -> (v: i8)
    ensures
        v as int == le_signed(seq![b]),
{
    if b >= 128 {
        (b as i16 - 256) as i8
    } else {
        b as i8
    }
}

/// Reads a signed 1-, 2- or 4-byte little-endian field of a state snapshot.
pub fn read_i32_from_state(buf: &[u8], offset: usize, size: usize) -> (v: i32)
    requires
        offset + size <= usize::MAX,
    ensures
        v as int == read_i32_spec(buf@, offset as int, size as int),
{
    let end = offset + size;
    if end > buf.len() || size == 0 {
        return 0;
    }
    let ghost b = buf@.subrange(offset as int, offset + size);
    if size == 1 {
        assert(b == seq![buf@[offset as int]]);
        i8_from_le(buf[offset]) as i32
    } else if size == 2 {
        assert(b == seq![buf@[offset as int], buf@[offset + 1]]);
        i16_from_le(buf[offset], buf[offset + 1]) as i32
    } else if size == 4 {
        assert(b == seq![buf@[offset as int], buf@[offset + 1], buf@[offset + 2], buf@[offset + 3]]);
        i32_from_le(buf[offset], buf[offset + 1], buf[offset + 2], buf[offset + 3])
    } else {
        0
    }
}

// ---------------------------------------------------------------------------
// Buckets
// ---------------------------------------------------------------------------

/// Index of the first threshold equal to `v`.
pub open spec fn first_index_of(ts: Seq<i32>, v: i32) -> Option<int>
    decreases ts.len(),
{
    if ts.len() == 0 {
        None
    } else if ts.last() == v && !(first_index_of(ts.drop_last(), v) is Some) {
        Some(ts.len() - 1)
    } else {
        first_index_of(ts.drop_last(), v)
    }
}

/// Number of thresholds at most `v`.
pub open spec fn count_at_most(ts: Seq<i32>, v: i32) -> nat
    decreases ts.len(),
{
    if ts.len() == 0 {
        0
    } else {
        count_at_most(ts.drop_last(), v) + if ts.last() <= v { 1nat } else { 0nat }
    }
}

/// The bucket a field value falls in.
pub open spec fn bucket_spec(field: StateHashField, value: i32) -> int {
    let top = field.bucket_count - 1;
    match field.bucket_scheme {
        BucketScheme::Identity => match first_index_of(field.thresholds@, value) {
            Some(i) => i,
            None => top,
        },
        BucketScheme::ThresholdLog2 => {
            let n = count_at_most(field.thresholds@, value) as int;
            if n < top { n } else { top }
        },
        _ => {
            let capped = if value < 0 { 0 } else { value as int };
            if capped < top { capped } else { top }
        },
    }
}

/// The bucket a field value falls in: its position among the thresholds
/// (identity), the number of thresholds it reaches (log2), or the value
/// itself, capped at the last bucket.
pub fn compute_bucket(field: &StateHashField, value: i32) -> (b: usize)
    requires
        field.bucket_count >= 1,
    ensures
        b as int == bucket_spec(*field, value),
{
    let top = field.bucket_count - 1;
    match field.bucket_scheme {
        BucketScheme::Identity => {
            let mut i: usize = 0;
            let ts = &field.thresholds;
            while i < ts.len()
                invariant
                    i <= ts@.len(),
                    ts@ == field.thresholds@,
                    field.bucket_scheme == BucketScheme::Identity,
                    field.bucket_count >= 1,
                    first_index_of(ts@.take(i as int), value) is None,
                decreases ts@.len() - i,
            {
                assert(ts@.take(i + 1).drop_last() == ts@.take(i as int));
                if ts[i] == value {
                    proof { lemma_first_index_prefix(ts@, value, i as int); }
                    assert(first_index_of(field.thresholds@, value) == Some(i as int));
                    assert(bucket_spec(*field, value) == i as int);
                    return i;
                }
                i += 1;
            }
            assert(ts@.take(ts@.len() as int) == ts@);
            top
        },
        BucketScheme::ThresholdLog2 => {
            let mut n: usize = 0;
            let mut i: usize = 0;
            let ts = &field.thresholds;
            while i < ts.len()
                invariant
                    i <= ts@.len(),
                    ts@ == field.thresholds@,
                    n == count_at_most(ts@.take(i as int), value),
                    n <= i,
                decreases ts@.len() - i,
            {
                assert(ts@.take(i + 1).drop_last() == ts@.take(i as int));
                if value >= ts[i] {
                    n += 1;
                }
                i += 1;
            }
            assert(ts@.take(ts@.len() as int) == ts@);
            if n < top { n } else { top }
        },
        _ => {
            let capped: usize = if value < 0 { 0 } else { value as usize };
            if capped < top { capped } else { top }
        },
    }
}

proof fn lemma_first_index_prefix(ts: Seq<i32>, v: i32, i: int)
    requires
        0 <= i < ts.len(),
        ts[i] == v,
        first_index_of(ts.take(i), v) is None,
    ensures
        first_index_of(ts, v) == Some(i),
    decreases ts.len(),
{
    if i == ts.len() - 1 {
        assert(ts.drop_last() == ts.take(i));
    } else {
        assert(ts.drop_last().take(i) == ts.take(i));
        lemma_first_index_prefix(ts.drop_last(), v, i);
    }
}

// ---------------------------------------------------------------------------
// Snapshot quality
// ---------------------------------------------------------------------------

/// Sum of the non-negative parts of the sub-accumulator values.
pub open spec fn sub_accum_sum(snap: Seq<u8>, fs: Seq<SubAccumulatorField>) -> int
    decreases fs.len(),
{
    if fs.len() == 0 {
        0
    } else {
        let v = read_i32_spec(snap, fs.last().byte_offset as int, fs.last().byte_size as int);
        sub_accum_sum(snap, fs.drop_last()) + if v < 0 { 0 } else { v }
    }
}

/// Sum of the non-negative parts of the high-watermark state fields other
/// than the discriminant.
pub open spec fn hwm_sum(snap: Seq<u8>, fs: Seq<StateHashField>, disc: int) -> int
    decreases fs.len(),
{
    if fs.len() == 0 {
        0
    } else {
        let f = fs.last();
        let v = read_i32_spec(snap, f.absolute_byte_offset as int, f.byte_size as int);
        hwm_sum(snap, fs.drop_last(), disc) + if f.high_watermark && f.absolute_byte_offset
            != disc && v > 0 {
            v
        } else {
            0
        }
    }
}

/// The score `snapshot_quality` gives.
pub open spec fn quality_spec(
    snap: Seq<u8>,
    sub_accum: Seq<SubAccumulatorField>,
    state_fields: Seq<StateHashField>,
    disc: int,
) -> int {
    if sub_accum.len() > 0 {
        sub_accum_sum(snap, sub_accum)
    } else {
        hwm_sum(snap, state_fields, disc)
    }
}

proof fn lemma_sub_accum_prefix(snap: Seq<u8>, fs: Seq<SubAccumulatorField>, i: int)
    requires
        0 <= i <= fs.len(),
    ensures
        0 <= sub_accum_sum(snap, fs.take(i)) <= sub_accum_sum(snap, fs),
    decreases fs.len(),
{
    if i == fs.len() {
        assert(fs.take(i) == fs);
        lemma_sub_accum_nonneg(snap, fs);
    } else {
        assert(fs.drop_last().take(i) == fs.take(i));
        lemma_sub_accum_prefix(snap, fs.drop_last(), i);
    }
}

proof fn lemma_sub_accum_nonneg(snap: Seq<u8>, fs: Seq<SubAccumulatorField>)
    ensures
        0 <= sub_accum_sum(snap, fs),
    decreases fs.len(),
{
    if fs.len() > 0 {
        lemma_sub_accum_nonneg(snap, fs.drop_last());
    }
}

proof fn lemma_hwm_prefix(snap: Seq<u8>, fs: Seq<StateHashField>, disc: int, i: int)
    requires
        0 <= i <= fs.len(),
    ensures
        0 <= hwm_sum(snap, fs.take(i), disc) <= hwm_sum(snap, fs, disc),
    decreases fs.len(),
{
    if i == fs.len() {
        assert(fs.take(i) == fs);
        lemma_hwm_nonneg(snap, fs, disc);
    } else {
        assert(fs.drop_last().take(i) == fs.take(i));
        lemma_hwm_prefix(snap, fs.drop_last(), disc, i);
    }
}

proof fn lemma_hwm_nonneg(snap: Seq<u8>, fs: Seq<StateHashField>, disc: int)
    ensures
        0 <= hwm_sum(snap, fs, disc),
    decreases fs.len(),
{
    if fs.len() > 0 {
        lemma_hwm_nonneg(snap, fs.drop_last(), disc);
    }
}

/// Score of a struct snapshot, higher when the state is better placed to
/// advance the discriminant: the sum of the sub-accumulator values when any
/// are known, else the sum of the high-watermark state fields other than the
/// discriminant; negative values count as 0.
pub fn snapshot_quality(
    snap: &[u8],
    sub_accum: &[SubAccumulatorField],
    state_fields: &[StateHashField],
    discriminant_offset: usize,
) -> (q: u32)
    requires
        forall|i: int| 0 <= i < sub_accum@.len() ==> #[trigger] sub_accum@[i].byte_offset
            + sub_accum@[i].byte_size <= usize::MAX,
        forall|i: int| 0 <= i < state_fields@.len() ==> #[trigger] state_fields@[i].absolute_byte_offset
            + state_fields@[i].byte_size <= usize::MAX,
        quality_spec(snap@, sub_accum@, state_fields@, discriminant_offset as int) <= u32::MAX,
    ensures
        q as int == quality_spec(snap@, sub_accum@, state_fields@, discriminant_offset as int),
{
    let mut sum: u32 = 0;
    let mut i: usize = 0;
    if sub_accum.len() > 0 {
        while i < sub_accum.len()
            invariant
                i <= sub_accum@.len(),
                sub_accum@.len() > 0,
                sum == sub_accum_sum(snap@, sub_accum@.take(i as int)),
                sub_accum_sum(snap@, sub_accum@) <= u32::MAX,
                forall|k: int| 0 <= k < sub_accum@.len() ==> #[trigger] sub_accum@[k].byte_offset
                    + sub_accum@[k].byte_size <= usize::MAX,
            decreases sub_accum@.len() - i,
        {
            assert(sub_accum@.take(i + 1).drop_last() == sub_accum@.take(i as int));
            proof { lemma_sub_accum_prefix(snap@, sub_accum@, i + 1); }
            let v = read_i32_from_state(snap, sub_accum[i].byte_offset, sub_accum[i].byte_size);
            if v > 0 {
                sum = sum + v as u32;
            }
            i += 1;
        }
        assert(sub_accum@.take(sub_accum@.len() as int) == sub_accum@);
    } else {
        while i < state_fields.len()
            invariant
                i <= state_fields@.len(),
                sum == hwm_sum(snap@, state_fields@.take(i as int), discriminant_offset as int),
                hwm_sum(snap@, state_fields@, discriminant_offset as int) <= u32::MAX,
                forall|k: int| 0 <= k < state_fields@.len() ==> #[trigger] state_fields@[k].absolute_byte_offset
                    + state_fields@[k].byte_size <= usize::MAX,
            decreases state_fields@.len() - i,
        {
            assert(state_fields@.take(i + 1).drop_last() == state_fields@.take(i as int));
            proof { lemma_hwm_prefix(snap@, state_fields@, discriminant_offset as int, i + 1); }
            let f = &state_fields[i];
            if f.high_watermark && f.absolute_byte_offset != discriminant_offset {
                let v = read_i32_from_state(snap, f.absolute_byte_offset, f.byte_size);
                if v > 0 {
                    sum = sum + v as u32;
                }
            }
            i += 1;
        }
        assert(state_fields@.take(state_fields@.len() as int) == state_fields@);
    }
    sum
}


/// The score of a snapshot (see `snapshot_quality`), or `None` when it does
/// not fit in a `u32`.
pub fn snapshot_quality_checked(
    snap: &[u8],
    sub_accum: &[SubAccumulatorField],
    state_fields: &[StateHashField],
    discriminant_offset: usize,
) -> (q: Option<u32>)
    requires
        forall|i: int| 0 <= i < sub_accum@.len() ==> #[trigger] sub_accum@[i].byte_offset
            + sub_accum@[i].byte_size <= usize::MAX,
        forall|i: int| 0 <= i < state_fields@.len() ==> #[trigger] state_fields@[i].absolute_byte_offset
            + state_fields@[i].byte_size <= usize::MAX,
    ensures
        match q {
            Some(v) => v as int == quality_spec(snap@, sub_accum@, state_fields@, discriminant_offset as int),
            None => quality_spec(snap@, sub_accum@, state_fields@, discriminant_offset as int) > u32::MAX,
        },
{
    let mut sum: u64 = 0;
    let mut i: usize = 0;
    if sub_accum.len() > 0 {
        while i < sub_accum.len()
            invariant
                i <= sub_accum@.len(),
                sum == sub_accum_sum(snap@, sub_accum@.take(i as int)),
                sum <= u32::MAX + 0x7FFF_FFFF,
                sub_accum@.len() > 0,
                forall|k: int| 0 <= k < sub_accum@.len() ==> #[trigger] sub_accum@[k].byte_offset
                    + sub_accum@[k].byte_size <= usize::MAX,
            decreases sub_accum@.len() - i,
        {
            assert(sub_accum@.take(i + 1).drop_last() == sub_accum@.take(i as int));
            let v = read_i32_from_state(snap, sub_accum[i].byte_offset, sub_accum[i].byte_size);
            if sum > u32::MAX as u64 {
                proof { lemma_sub_accum_prefix(snap@, sub_accum@, i as int); }
                return None;
            }
            if v > 0 {
                sum = sum + v as u64;
            }
            i += 1;
        }
        assert(sub_accum@.take(sub_accum@.len() as int) == sub_accum@);
    } else {
        while i < state_fields.len()
            invariant
                i <= state_fields@.len(),
                sum == hwm_sum(snap@, state_fields@.take(i as int), discriminant_offset as int),
                sum <= u32::MAX + 0x7FFF_FFFF,
                sub_accum@.len() == 0,
                forall|k: int| 0 <= k < state_fields@.len() ==> #[trigger] state_fields@[k].absolute_byte_offset
                    + state_fields@[k].byte_size <= usize::MAX,
            decreases state_fields@.len() - i,
        {
            assert(state_fields@.take(i + 1).drop_last() == state_fields@.take(i as int));
            if sum > u32::MAX as u64 {
                proof { lemma_hwm_prefix(snap@, state_fields@, discriminant_offset as int, i as int); }
                return None;
            }
            let f = &state_fields[i];
            if f.high_watermark && f.absolute_byte_offset != discriminant_offset {
                let v = read_i32_from_state(snap, f.absolute_byte_offset, f.byte_size);
                if v > 0 {
                    sum = sum + v as u64;
                }
            }
            i += 1;
        }
        assert(state_fields@.take(state_fields@.len() as int) == state_fields@);
    }
    if sum > u32::MAX as u64 {
        None
    } else {
        Some(sum as u32)
    }
}

// ---------------------------------------------------------------------------
// State coverage of one testcase
// ---------------------------------------------------------------------------

/// What a state field holds after one more snapshot in which it reads `v`:
/// the largest value so far for a high-watermark field, else `v`.
pub open spec fn tracked_value(field: StateHashField, prev: i32, v: int) -> int {
    if field.high_watermark {
        if v > prev {
            v
        } else {
            prev as int
        }
    } else {
        v
    }
}

proof fn lemma_first_index_bound(ts: Seq<i32>, v: i32)
    ensures
        first_index_of(ts, v) matches Some(i) ==> 0 <= i < ts.len(),
    decreases ts.len(),
{
    if ts.len() > 0 {
        lemma_first_index_bound(ts.drop_last(), v);
    }
}

/// The state fields' values over the snapshots of one testcase, one per
/// field (`i32::MIN` before the first snapshot).
pub struct StateTracker {
    pub values: Vec<i32>,
}

/// The state-map slots a testcase reaches: for each field that was read, in
/// order, the slot of its bucket, when it lies within the map.
pub open spec fn hit_slots_spec(fs: Seq<StateHashField>, vs: Seq<i32>, map_size: int, k: int) -> Seq<int>
    decreases k,
{
    if k <= 0 {
        Seq::empty()
    } else {
        let prev = hit_slots_spec(fs, vs, map_size, k - 1);
        if vs[k - 1] == i32::MIN {
            prev
        } else {
            let slot = fs[k - 1].shmem_base + bucket_spec(fs[k - 1], vs[k - 1]);
            if slot < map_size {
                prev.push(slot)
            } else {
                prev
            }
        }
    }
}

impl StateTracker {
    /// No snapshot seen yet, for `n` fields.
    pub fn new(n: usize) -> (r: Self)
        ensures
            r.values@ == Seq::new(n as nat, |i: int| i32::MIN),
    {
        let mut values: Vec<i32> = Vec::new();
        let mut i: usize = 0;
        while i < n
            invariant
                i <= n,
                values@ == Seq::new(i as nat, |k: int| i32::MIN),
            decreases n - i,
        {
            values.push(i32::MIN);
            i += 1;
            assert(values@ =~= Seq::new(i as nat, |k: int| i32::MIN));
        }
        StateTracker { values }
    }

    /// Takes in one snapshot: each field's value is updated as
    /// `tracked_value` says, from what the snapshot holds at its place.
    pub fn observe(&mut self, fields: &[StateHashField], snap: &[u8])
        requires
            old(self).values@.len() == fields@.len(),
            forall|i: int| 0 <= i < fields@.len() ==> #[trigger] fields@[i].absolute_byte_offset
                + fields@[i].byte_size <= usize::MAX,
        ensures
            final(self).values@.len() == fields@.len(),
            forall|i: int|
                0 <= i < fields@.len() ==> #[trigger] final(self).values@[i] as int == tracked_value(
                    fields@[i],
                    old(self).values@[i],
                    read_i32_spec(snap@, fields@[i].absolute_byte_offset as int, fields@[i].byte_size as int),
                ),
    {
        let ghost before = self.values@;
        let mut i: usize = 0;
        while i < fields.len()
            invariant
                i <= fields@.len(),
                self.values@.len() == fields@.len(),
                before.len() == fields@.len(),
                forall|k: int| 0 <= k < fields@.len() ==> #[trigger] fields@[k].absolute_byte_offset
                    + fields@[k].byte_size <= usize::MAX,
                forall|k: int| i <= k < fields@.len() ==> #[trigger] self.values@[k] == before[k],
                forall|k: int|
                    0 <= k < i ==> #[trigger] self.values@[k] as int == tracked_value(
                        fields@[k],
                        before[k],
                        read_i32_spec(snap@, fields@[k].absolute_byte_offset as int, fields@[k].byte_size as int),
                    ),
            decreases fields@.len() - i,
        {
            let f = &fields[i];
            let v = read_i32_from_state(snap, f.absolute_byte_offset, f.byte_size);
            let prev = self.values[i];
            let nv = if f.high_watermark {
                if v > prev { v } else { prev }
            } else {
                v
            };
            self.values.set(i, nv);
            i += 1;
        }
    }

    /// The state-map slots this testcase reached (see `hit_slots_spec`).
    pub fn hit_slots(&self, fields: &[StateHashField], map_size: usize) -> (r: Vec<usize>)
        requires
            self.values@.len() == fields@.len(),
            forall|i: int| 0 <= i < fields@.len() ==> (#[trigger] fields@[i]).bucket_count >= 1
                && fields@[i].shmem_base + fields@[i].bucket_count + fields@[i].thresholds@.len() <= usize::MAX,
        ensures
            r@.map_values(|x: usize| x as int) == hit_slots_spec(
                fields@,
                self.values@,
                map_size as int,
                fields@.len() as int,
            ),
    {
        let mut out: Vec<usize> = Vec::new();
        let mut i: usize = 0;
        while i < fields.len()
            invariant
                i <= fields@.len(),
                self.values@.len() == fields@.len(),
                forall|k: int| 0 <= k < fields@.len() ==> (#[trigger] fields@[k]).bucket_count >= 1
                    && fields@[k].shmem_base + fields@[k].bucket_count + fields@[k].thresholds@.len() <= usize::MAX,
                out@.map_values(|x: usize| x as int) == hit_slots_spec(fields@, self.values@, map_size as int, i as int),
            decreases fields@.len() - i,
        {
            let v = self.values[i];
            if v != i32::MIN {
                let f = &fields[i];
                let b = compute_bucket(f, v);
                proof { lemma_first_index_bound(f.thresholds@, v); }
                let slot = f.shmem_base + b;
                if slot < map_size {
                    let ghost before = out@;
                    out.push(slot);
                    assert(out@.map_values(|x: usize| x as int) =~= before.map_values(|x: usize| x as int).push(
                        slot as int,
                    ));
                }
            }
            i += 1;
        }
        out
    }
}

/// Whether a threshold `t` is reached by value `v`: `t <= v`.
pub open spec fn reached_by(v: i32) -> spec_fn(i32) -> bool {
    |t: i32| t <= v
}

proof fn lemma_count_at_most_is_filter(ts: Seq<i32>, v: i32)
    ensures
        count_at_most(ts, v) == ts.filter(reached_by(v)).len(),
    decreases ts.len(),
{
    reveal(Seq::filter);
    if ts.len() > 0 {
        lemma_count_at_most_is_filter(ts.drop_last(), v);
    }
}

/// A log2-bucketed value falls in the bucket that counts the thresholds it
/// reaches (those at most the value, a value equal to a threshold reaching
/// it), capped at the last bucket; so a value that reaches one more
/// threshold lies in a higher bucket while below the cap.
pub proof fn lemma_log2_bucket_counts_reached_thresholds(field: StateHashField, value: i32)
    requires
        field.bucket_scheme == BucketScheme::ThresholdLog2,
    ensures
        bucket_spec(field, value) == if field.thresholds@.filter(reached_by(value)).len() < field.bucket_count - 1 {
            field.thresholds@.filter(reached_by(value)).len() as int
        } else {
            field.bucket_count - 1
        },
{
    lemma_count_at_most_is_filter(field.thresholds@, value);
}

/// The value a high-watermark field holds never falls from one snapshot to
/// the next; any other field holds what the latest snapshot read.
pub proof fn lemma_high_watermark_never_falls(field: StateHashField, prev: i32, v: int)
    ensures
        field.high_watermark ==> tracked_value(field, prev, v) >= prev && tracked_value(field, prev, v) >= v,
        !field.high_watermark ==> tracked_value(field, prev, v) == v,
{
}

} // verus!
