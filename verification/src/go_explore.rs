//! Go-Explore bookkeeping: the shared-memory checkpoint header a forked run
//! reports through, the table of checkpoints by discriminant bucket, the
//! progress stages, and the zone-aware frames a burst from a checkpoint runs.
use vstd::prelude::*;
use crate::fields::{FieldRole, FieldValueModel, InputFieldSpec};
use crate::metadata::lookup;

verus! {

// ---------------------------------------------------------------------------
// Configuration
// ---------------------------------------------------------------------------

/// A per-field `[lo, hi]` range for burst frames.
#[derive(Debug, Clone, Copy)]
pub struct FieldRange {
    pub lo: i16,
    pub hi: i16,
}

/// A zone of discriminant values `[lo, hi)` with its field ranges (by field
/// name; a later entry for a name replaces an earlier one).
#[derive(Debug, Clone)]
pub struct ZoneConstraint {
    pub id: usize,
    pub lo: i32,
    pub hi: i32,
    pub field_constraints: Vec<(String, FieldRange)>,
}

/// The field ranges as mathematical values.
pub open spec fn ranges_view(rs: Seq<(String, FieldRange)>) -> Seq<(Seq<char>, FieldRange)> {
    rs.map_values(|e: (String, FieldRange)| (e.0@, e.1))
}

/// The largest discriminant value when the configuration gives none.
pub fn default_max_discriminant() -> (r: u32)
    ensures
        r == 255,
{
    255
}

/// Whether zone `z` contains discriminant bucket `bucket` (the bucket read
/// as an `i32`).
pub open spec fn zone_contains(z: ZoneConstraint, bucket: usize) -> bool {
    (bucket as i32) >= z.lo && (bucket as i32) < z.hi
}

/// The index of the first zone whose `[lo, hi)` contains `bucket`.
pub fn find_zone_idx(zones: &[ZoneConstraint], bucket: usize) -> (r: Option<usize>)
    ensures
        match r {
            Some(i) => i < zones@.len() && zone_contains(zones@[i as int], bucket) && forall|j: int|
                0 <= j < i ==> !zone_contains(#[trigger] zones@[j], bucket),
            None => forall|j: int| 0 <= j < zones@.len() ==> !zone_contains(#[trigger] zones@[j], bucket),
        },
{
    let b = bucket as i32;
    let mut i: usize = 0;
    while i < zones.len()
        invariant
            i <= zones@.len(),
            b == bucket as i32,
            forall|j: int| 0 <= j < i ==> !zone_contains(#[trigger] zones@[j], bucket),
        decreases zones@.len() - i,
    {
        if b >= zones[i].lo && b < zones[i].hi {
            return Some(i);
        }
        i += 1;
    }
    None
}

// ---------------------------------------------------------------------------
// Random values from draws
// ---------------------------------------------------------------------------

/// A value in `[lo, hi]` from a random draw: `lo` when the range is empty,
/// else `lo` plus the draw modulo the range's size (the size capped at
/// `i16::MAX`, the sum saturating).
pub open spec fn i16_in_range(draw: u64, lo: i16, hi: i16) -> i16 {
    if lo >= hi {
        lo
    } else {
        let range: int = if hi - lo > i16::MAX { i16::MAX as int } else { hi - lo };
        let v = lo + (draw % ((range + 1) as u64));
        if v > i16::MAX {
            i16::MAX
        } else {
            v as i16
        }
    }
}

/// Whether `i16_in_range` consumes a draw.
pub open spec fn range_draws(lo: i16, hi: i16) -> int {
    if lo >= hi {
        0
    } else {
        1
    }
}

/// A value in `[lo, hi]` from the random draw `draw` (see `i16_in_range`).
pub fn rand_i16_in(draw: u64, lo: i16, hi: i16) -> (v: i16)
    ensures
        v == i16_in_range(draw, lo, hi),
{
    if lo >= hi {
        return lo;
    }
    let diff: i32 = hi as i32 - lo as i32;
    let range: u64 = if diff > i16::MAX as i32 { i16::MAX as u64 } else { diff as u64 };
    let m: u64 = draw % (range + 1);
    let s: i32 = lo as i32 + m as i32;
    if s > i16::MAX as i32 {
        i16::MAX
    } else {
        s as i16
    }
}

/// `buf` with the little-endian bytes of `value` at `offset` when they fit.
pub open spec fn with_i16_le(buf: Seq<u8>, offset: int, value: i16) -> Seq<u8> {
    if offset + 2 <= buf.len() {
        let u: int = if value < 0 { value + 65536 } else { value as int };
        buf.update(offset, (u % 256) as u8).update(offset + 1, (u / 256) as u8)
    } else {
        buf
    }
}

/// Writes `value` little-endian at `offset` when the two bytes fit in `buf`.
pub fn write_i16_le(buf: &mut Vec<u8>, offset: usize, value: i16)
    requires
        offset + 2 <= usize::MAX,
    ensures
        final(buf)@ == with_i16_le(old(buf)@, offset as int, value),
{
    if offset + 2 <= buf.len() {
        let u: u32 = if value < 0 { (value as i32 + 65536) as u32 } else { value as u32 };
        buf.set(offset, (u % 256) as u8);
        buf.set(offset + 1, (u / 256) as u8);
    }
}

// ---------------------------------------------------------------------------
// Checkpoint headers
// ---------------------------------------------------------------------------

/// The little-endian 16-bit value of two bytes.
pub open spec fn u16_le(lo: u8, hi: u8) -> int {
    lo + 256 * hi
}

/// The header a forked run writes: the flag at byte 0, the bucket's low 16
/// bits little-endian at bytes 1-2 and the generation at bytes 3-4.
pub open spec fn with_checkpoint_header(h: Seq<u8>, flag: u8, bucket: usize, chk_gen: u16) -> Seq<u8> {
    h.update(0, flag).update(1, (bucket % 256) as u8).update(2, ((bucket / 256) % 256) as u8).update(
        3,
        (chk_gen % 256) as u8,
    ).update(4, (chk_gen / 256) as u8)
}

/// Writes the checkpoint header into its first five bytes.
pub fn chk_write_header(header: &mut Vec<u8>, flag: u8, bucket: usize, chk_gen: u16)
    requires
        old(header)@.len() >= 5,
    ensures
        final(header)@ == with_checkpoint_header(old(header)@, flag, bucket, chk_gen),
{
    header.set(0, flag);
    header.set(1, (bucket % 256) as u8);
    header.set(2, ((bucket / 256) % 256) as u8);
    header.set(3, (chk_gen % 256) as u8);
    header.set(4, (chk_gen / 256) as u8);
}

/// The bucket a checkpoint header holds (bytes 1-2, little-endian).
pub fn chk_read_bucket(header: &[u8]) -> (b: usize)
    requires
        header@.len() >= 5,
    ensures
        b == u16_le(header@[1], header@[2]),
{
    header[1] as usize + 256 * (header[2] as usize)
}

/// The generation a checkpoint header holds (bytes 3-4, little-endian).
pub fn chk_read_gen(header: &[u8]) -> (g: u16)
    requires
        header@.len() >= 5,
    ensures
        g == u16_le(header@[3], header@[4]),
{
    header[3] as u16 + 256 * (header[4] as u16)
}

/// Reading a checkpoint header gives back what was written: the flag, the
/// bucket modulo 2^16 and the generation.
pub proof fn lemma_checkpoint_header_roundtrip(h: Seq<u8>, flag: u8, bucket: usize, chk_gen: u16)
    requires
        h.len() >= 5,
    ensures
        ({
            let w = with_checkpoint_header(h, flag, bucket, chk_gen);
            &&& w.len() == h.len()
            &&& w[0] == flag
            &&& u16_le(w[1], w[2]) == bucket % 65536
            &&& u16_le(w[3], w[4]) == chk_gen
            &&& forall|i: int| 5 <= i < h.len() ==> w[i] == h[i]
        }),
{
    let w = with_checkpoint_header(h, flag, bucket, chk_gen);
    assert(w[1] == (bucket % 256) as u8);
    assert(w[2] == ((bucket / 256) % 256) as u8);
    assert((bucket % 256) + 256 * ((bucket / 256) % 256) == bucket % 65536) by (nonlinear_arith);
}

/// The header a forked stage run writes: flag, stage id, the bucket's low
/// 16 bits at bytes 2-3 and the generation at bytes 4-5.
pub open spec fn with_stage_header(
    h: Seq<u8>,
    flag: u8,
    stage_id: u8,
    bucket: usize,
    chk_gen: u16,
) -> Seq<u8> {
    h.update(0, flag).update(1, stage_id).update(2, (bucket % 256) as u8).update(
        3,
        ((bucket / 256) % 256) as u8,
    ).update(4, (chk_gen % 256) as u8).update(5, (chk_gen / 256) as u8)
}

/// Writes a stage checkpoint header into its first six bytes.
pub fn chk_write_stage_header(header: &mut Vec<u8>, flag: u8, stage_id: u8, bucket: usize, chk_gen: u16)
    requires
        old(header)@.len() >= 6,
    ensures
        final(header)@ == with_stage_header(old(header)@, flag, stage_id, bucket, chk_gen),
{
    header.set(0, flag);
    header.set(1, stage_id);
    header.set(2, (bucket % 256) as u8);
    header.set(3, ((bucket / 256) % 256) as u8);
    header.set(4, (chk_gen % 256) as u8);
    header.set(5, (chk_gen / 256) as u8);
}

/// The stage id of a stage checkpoint header (byte 1).
pub fn chk_read_stage(header: &[u8]) -> (s: u8)
    requires
        header@.len() >= 6,
    ensures
        s == header@[1],
{
    header[1]
}

/// The bucket of a stage checkpoint header (bytes 2-3, little-endian).
pub fn chk_read_stage_bucket(header: &[u8]) -> (b: usize)
    requires
        header@.len() >= 6,
    ensures
        b == u16_le(header@[2], header@[3]),
{
    header[2] as usize + 256 * (header[3] as usize)
}

/// The generation of a stage checkpoint header (bytes 4-5, little-endian).
pub fn chk_read_stage_gen(header: &[u8]) -> (g: u16)
    requires
        header@.len() >= 6,
    ensures
        g == u16_le(header@[4], header@[5]),
{
    header[4] as u16 + 256 * (header[5] as u16)
}

/// Reading a stage checkpoint header gives back what was written.
pub proof fn lemma_stage_header_roundtrip(
    h: Seq<u8>,
    flag: u8,
    stage_id: u8,
    bucket: usize,
    chk_gen: u16,
)
    requires
        h.len() >= 6,
    ensures
        ({
            let w = with_stage_header(h, flag, stage_id, bucket, chk_gen);
            &&& w.len() == h.len()
            &&& w[0] == flag
            &&& w[1] == stage_id
            &&& u16_le(w[2], w[3]) == bucket % 65536
            &&& u16_le(w[4], w[5]) == chk_gen
            &&& forall|i: int| 6 <= i < h.len() ==> w[i] == h[i]
        }),
{
    assert((bucket % 256) + 256 * ((bucket / 256) % 256) == bucket % 65536) by (nonlinear_arith);
}

// ---------------------------------------------------------------------------
// The checkpoint table
// ---------------------------------------------------------------------------

/// Checkpoints by discriminant bucket: a state snapshot and its quality.
pub type CheckpointTable = Vec<Option<(Vec<u8>, u32)>>;

/// The qualities stored in a table, by bucket.
pub open spec fn qualities(t: Seq<Option<(Vec<u8>, u32)>>) -> Seq<Option<u32>> {
    t.map_values(|e: Option<(Vec<u8>, u32)>| match e {
        Some(p) => Some(p.1),
        None => None,
    })
}

/// Whether a checkpoint of quality `q` replaces the entry `e`: an empty slot
/// or a strictly better quality.
pub open spec fn improves(e: Option<(Vec<u8>, u32)>, q: u32) -> bool {
    match e {
        None => true,
        Some(p) => q > p.1,
    }
}

/// Offers a checkpoint for `bucket`: it is stored when the bucket is in the
/// table and its slot is empty or holds a worse quality.  Returns whether it
/// was stored and whether the slot was empty.
pub fn offer_checkpoint(table: &mut CheckpointTable, bucket: usize, snap: Vec<u8>, quality: u32) -> (r:
    Option<bool>)
    ensures
        final(table)@.len() == old(table)@.len(),
        match r {
            Some(is_new) => bucket < old(table)@.len() && improves(old(table)@[bucket as int], quality)
                && is_new == (old(table)@[bucket as int] is None) && final(table)@[bucket as int]
                == Some((snap, quality)) && forall|i: int|
                0 <= i < old(table)@.len() && i != bucket ==> final(table)@[i] == old(table)@[i],
            None => !(bucket < old(table)@.len() && improves(old(table)@[bucket as int], quality))
                && final(table)@ == old(table)@,
        },
        forall|i: int|
            0 <= i < old(table)@.len() ==> match (#[trigger] old(table)@[i], final(table)@[i]) {
                (Some(b), Some(a)) => a.1 >= b.1,
                (Some(_), None) => false,
                _ => true,
            },
{
    if bucket >= table.len() {
        return None;
    }
    let update = match &table[bucket] {
        None => true,
        Some(p) => quality > p.1,
    };
    if !update {
        return None;
    }
    let is_new = table[bucket].is_none();
    table.set(bucket, Some((snap, quality)));
    Some(is_new)
}

/// The highest bucket that holds a checkpoint.
pub fn best_bucket(table: &CheckpointTable) -> (r: Option<usize>)
    ensures
        match r {
            Some(i) => i < table@.len() && table@[i as int] is Some && forall|j: int|
                i < j < table@.len() ==> #[trigger] table@[j] is None,
            None => forall|j: int| 0 <= j < table@.len() ==> #[trigger] table@[j] is None,
        },
{
    let mut i = table.len();
    while i > 0
        invariant
            i <= table@.len(),
            forall|j: int| i <= j < table@.len() ==> #[trigger] table@[j] is None,
        decreases i,
    {
        if table[i - 1].is_some() {
            return Some(i - 1);
        }
        i -= 1;
    }
    None
}

/// The buckets that hold checkpoints, highest first.
pub fn filled_buckets(table: &CheckpointTable) -> (r: Vec<usize>)
    ensures
        forall|k: int| 0 <= k < r@.len() ==> #[trigger] r@[k] < table@.len() && table@[r@[k] as int] is Some,
        forall|k: int, l: int| 0 <= k < l < r@.len() ==> #[trigger] r@[k] > #[trigger] r@[l],
        forall|i: int| 0 <= i < table@.len() && #[trigger] table@[i] is Some ==> exists|k: int|
            0 <= k < r@.len() && r@[k] == i,
{
    let mut out: Vec<usize> = Vec::new();
    let mut i = table.len();
    while i > 0
        invariant
            i <= table@.len(),
            forall|k: int| 0 <= k < out@.len() ==> i <= #[trigger] out@[k] < table@.len() && table@[out@[k] as int] is Some,
            forall|k: int, l: int| 0 <= k < l < out@.len() ==> #[trigger] out@[k] > #[trigger] out@[l],
            forall|j: int| i <= j < table@.len() && #[trigger] table@[j] is Some ==> exists|k: int|
                0 <= k < out@.len() && out@[k] == j,
        decreases i,
    {
        if table[i - 1].is_some() {
            let ghost before = out@;
            out.push(i - 1);
            assert(out@[out@.len() - 1] == i - 1);
            assert forall|j: int| i - 1 <= j < table@.len() && #[trigger] table@[j] is Some implies exists|k: int|
                0 <= k < out@.len() && out@[k] == j by {
                if j == i - 1 {
                    assert(out@[out@.len() - 1] == j);
                } else {
                    let k = choose|k: int| 0 <= k < before.len() && before[k] == j;
                    assert(out@[k] == j);
                }
            }
        }
        i -= 1;
    }
    out
}

// ---------------------------------------------------------------------------
// Burst frames
// ---------------------------------------------------------------------------

/// `frame` with bytes `[start, end)` set to zero.
pub open spec fn zero_range(frame: Seq<u8>, start: int, end: int) -> Seq<u8> {
    Seq::new(frame.len(), |i: int| if start <= i < end { 0u8 } else { frame[i] })
}

/// The larger of `v` and 0.
pub open spec fn nonneg(v: i16) -> i16 {
    if v < 0 {
        0
    } else {
        v
    }
}

/// What one input field writes into a frame, using draws from position `c`:
/// the new frame and the number of draws used.  A field outside the frame or
/// empty writes nothing; an inhibitor is zeroed; a field with a range gets a
/// value from it (two bytes for a 2-byte field, one byte for a 1-byte
/// field); otherwise an `i16` field with targets gets a target (80 in 100
/// draws) or a random value, and a flag a random bit.
pub open spec fn field_fill(
    frame: Seq<u8>,
    f: InputFieldSpec,
    ranges: Seq<(Seq<char>, FieldRange)>,
    draws: Seq<u64>,
    c: int,
) -> (Seq<u8>, int) {
    let fs = frame.len();
    if f.offset >= fs || f.size == 0 {
        (frame, 0)
    } else if f.role == FieldRole::Inhibitor {
        let end = if f.offset + f.size < fs { f.offset + f.size } else { fs as int };
        (zero_range(frame, f.offset as int, end), 0)
    } else {
        match lookup(ranges, f.name@) {
            Some(r) => if f.size == 2 {
                (with_i16_le(frame, f.offset as int, i16_in_range(draws[c], r.lo, r.hi)), range_draws(r.lo, r.hi))
            } else if f.size == 1 {
                let lo = nonneg(r.lo);
                let hi = nonneg(r.hi);
                (frame.update(f.offset as int, i16_in_range(draws[c], lo, hi) as u8), range_draws(lo, hi))
            } else {
                (frame, 0)
            },
            None => match f.model {
                FieldValueModel::I16 { targets } => if targets@.len() > 0 {
                    let v: i16 = if draws[c] % 100 < 80 {
                        targets@[((draws[c + 1] as usize) % (targets@.len() as usize)) as int]
                    } else {
                        draws[c + 1] as i16
                    };
                    (if f.size == 2 { with_i16_le(frame, f.offset as int, v) } else { frame }, 2)
                } else {
                    (frame, 0)
                },
                FieldValueModel::Bool => (frame.update(f.offset as int, (draws[c] % 2) as u8), 1),
                FieldValueModel::Raw => (frame, 0),
            },
        }
    }
}

/// One frame of `frame_size` zero bytes filled by the first `k` fields, with
/// draws from position `c0`: the frame and the next draw position.
pub open spec fn frame_fill(
    fields: Seq<InputFieldSpec>,
    k: int,
    ranges: Seq<(Seq<char>, FieldRange)>,
    frame_size: nat,
    draws: Seq<u64>,
    c0: int,
) -> (Seq<u8>, int)
    decreases k,
{
    if k <= 0 {
        (Seq::new(frame_size, |i: int| 0u8), c0)
    } else {
        let (fr, c) = frame_fill(fields, k - 1, ranges, frame_size, draws, c0);
        let (fr2, used) = field_fill(fr, fields[k - 1], ranges, draws, c);
        (fr2, c + used)
    }
}

/// `n` frames one after another, each filled by all the fields, drawing in
/// order: the bytes and the number of draws used.
pub open spec fn frames_fill(
    fields: Seq<InputFieldSpec>,
    ranges: Seq<(Seq<char>, FieldRange)>,
    frame_size: nat,
    n: int,
    draws: Seq<u64>,
) -> (Seq<u8>, int)
    decreases n,
{
    if n <= 0 {
        (Seq::empty(), 0)
    } else {
        let (out, c) = frames_fill(fields, ranges, frame_size, n - 1, draws);
        let (fr, c2) = frame_fill(fields, fields.len() as int, ranges, frame_size, draws, c);
        (out + fr, c2)
    }
}

fn find_range(constraints: &[(String, FieldRange)], name: &[char]) -> (r: Option<FieldRange>)
    ensures
        r == lookup(ranges_view(constraints@), name@),
{
    let ghost rv = ranges_view(constraints@);
    let mut i = constraints.len();
    assert(rv.take(i as int) == rv);
    while i > 0
        invariant
            i <= constraints@.len(),
            rv == ranges_view(constraints@),
            lookup(rv, name@) == lookup(rv.take(i as int), name@),
        decreases i,
    {
        assert(rv.take(i as int).drop_last() == rv.take(i - 1));
        let k = crate::text::chars_of(constraints[i - 1].0.as_str());
        if crate::text::chars_eq(k.as_slice(), name) {
            return Some(constraints[i - 1].1);
        }
        i -= 1;
    }
    None
}

fn fill_field(
    frame: &mut Vec<u8>,
    f: &InputFieldSpec,
    constraints: &[(String, FieldRange)],
    draws: &[u64],
    c: usize,
) -> (used: usize)
    requires
        c + 2 <= draws@.len(),
        old(frame)@.len() < usize::MAX,
    ensures
        (final(frame)@, used as int) == field_fill(old(frame)@, *f, ranges_view(constraints@), draws@, c as int),
        used <= 2,
{
    let fs = frame.len();
    if f.offset >= fs || f.size == 0 {
        return 0;
    }
    match f.role {
        FieldRole::Inhibitor => {
            let end = if f.size < fs - f.offset { f.offset + f.size } else { fs };
            let ghost fr0 = frame@;
            let mut i = f.offset;
            while i < end
                invariant
                    f.offset <= i <= end <= fs,
                    fs == frame@.len(),
                    frame@ == Seq::new(fs as nat, |j: int| if f.offset <= j < i { 0u8 } else { fr0[j] }),
                decreases end - i,
            {
                frame.set(i, 0);
                i += 1;
                assert(frame@ =~= Seq::new(fs as nat, |j: int| if f.offset <= j < i { 0u8 } else { fr0[j] }));
            }
            assert(frame@ =~= zero_range(fr0, f.offset as int, end as int));
            return 0;
        },
        _ => {},
    }
    let name = crate::text::chars_of(f.name.as_str());
    match find_range(constraints, name.as_slice()) {
        Some(r) => {
            if f.size == 2 {
                let v = rand_i16_in(draws[c], r.lo, r.hi);
                write_i16_le(frame, f.offset, v);
                if r.lo >= r.hi { 0 } else { 1 }
            } else if f.size == 1 {
                let lo: i16 = if r.lo < 0 { 0 } else { r.lo };
                let hi: i16 = if r.hi < 0 { 0 } else { r.hi };
                let v = rand_i16_in(draws[c], lo, hi);
                frame.set(f.offset, #[verifier::truncate] (v as u8));
                if lo >= hi { 0 } else { 1 }
            } else {
                0
            }
        },
        None => match &f.model {
            FieldValueModel::I16 { targets } => {
                if targets.len() > 0 {
                    let v: i16 = if draws[c] % 100 < 80 {
                        targets[(#[verifier::truncate] (draws[c + 1] as usize)) % targets.len()]
                    } else {
                        draws[c + 1] as i16
                    };
                    if f.size == 2 {
                        write_i16_le(frame, f.offset, v);
                    }
                    2
                } else {
                    0
                }
            },
            FieldValueModel::Bool => {
                frame.set(f.offset, (draws[c] % 2) as u8);
                1
            },
            FieldValueModel::Raw => 0,
        },
    }
}

/// Packed input frames for a burst: `n_frames` frames of `frame_size`
/// bytes, each filled field by field (see `field_fill`) with the field
/// ranges `field_constraints`, taking random values from `draws` in order.
/// Returns the bytes and the number of draws used.
pub fn generate_frames(
    field_constraints: &[(String, FieldRange)],
    input_fields: &[InputFieldSpec],
    frame_size: usize,
    n_frames: usize,
    draws: &[u64],
) -> (r: (Vec<u8>, usize))
    requires
        2 * input_fields@.len() * n_frames <= draws@.len(),
        frame_size < usize::MAX,
    ensures
        (r.0@, r.1 as int) == frames_fill(
            input_fields@,
            ranges_view(field_constraints@),
            frame_size as nat,
            n_frames as int,
            draws@,
        ),
{
    let ghost rv = ranges_view(field_constraints@);
    let ghost fields = input_fields@;
    let nf = input_fields.len();
    let nd = draws.len();
    let mut out: Vec<u8> = Vec::new();
    let mut c: usize = 0;
    let mut fi: usize = 0;
    while fi < n_frames
        invariant
            fi <= n_frames,
            nf == fields.len(),
            fields == input_fields@,
            rv == ranges_view(field_constraints@),
            2 * nf * n_frames <= draws@.len(),
            nd == draws@.len(),
            frame_size < usize::MAX,
            c <= 2 * nf * fi,
            (out@, c as int) == frames_fill(fields, rv, frame_size as nat, fi as int, draws@),
        decreases n_frames - fi,
    {
        assert(2 * nf * fi + 2 * nf <= 2 * nf * n_frames) by (nonlinear_arith)
            requires fi < n_frames;
        let mut frame: Vec<u8> = Vec::new();
        let mut z: usize = 0;
        while z < frame_size
            invariant
                z <= frame_size,
                frame@ == Seq::new(z as nat, |i: int| 0u8),
            decreases frame_size - z,
        {
            frame.push(0);
            z += 1;
            assert(frame@ =~= Seq::new(z as nat, |i: int| 0u8));
        }
        let ghost c0 = c as int;
        let mut k: usize = 0;
        while k < nf
            invariant
                k <= nf,
                nf == fields.len(),
                fields == input_fields@,
                rv == ranges_view(field_constraints@),
                frame@.len() == frame_size,
                frame_size < usize::MAX,
                c0 <= c <= c0 + 2 * k,
                c0 + 2 * nf <= draws@.len(),
                nd == draws@.len(),
                (frame@, c as int) == frame_fill(fields, k as int, rv, frame_size as nat, draws@, c0),
            decreases nf - k,
        {
            let used = fill_field(&mut frame, &input_fields[k], field_constraints, draws, c);
            c = c + used;
            k += 1;
        }
        assert(2 * nf * fi + 2 * nf == 2 * nf * (fi + 1)) by (nonlinear_arith);
        let ghost before = out@;
        let mut j: usize = 0;
        while j < frame.len()
            invariant
                j <= frame@.len(),
                out@ == before + frame@.take(j as int),
            decreases frame@.len() - j,
        {
            out.push(frame[j]);
            j += 1;
            assert(frame@.take(j as int) == frame@.take(j - 1).push(frame@[j - 1]));
        }
        assert(frame@.take(frame@.len() as int) == frame@);
        fi += 1;
    }
    (out, c)
}

/// Where the frames of one burst phase take their field ranges from.
#[derive(Debug, Clone, Copy, PartialEq, Eq, Structural)]
pub enum FrameSource {
    /// The ranges of the zone with this index.
    Zone(usize),
    /// No ranges.
    Unconstrained,
}

/// How far below a zone's end a bucket still counts as close to the next
/// zone.
pub const RAMP_WINDOW: i32 = 2;

/// The phases of a burst from discriminant bucket `bucket` with
/// `rollout_frames` frames: in the zone containing the bucket, all frames
/// from that zone, or, within `RAMP_WINDOW` of its end and with a next zone,
/// 70% from it and the rest from the next zone; outside every zone, all from
/// the last zone (or unconstrained when there is none).
pub open spec fn burst_plan(zones: Seq<ZoneConstraint>, bucket: usize, rollout_frames: usize) -> Seq<
    (FrameSource, int),
> {
    if exists|i: int| 0 <= i < zones.len() && zone_contains(#[trigger] zones[i], bucket) {
        let cur = choose|i: int|
            0 <= i < zones.len() && zone_contains(zones[i], bucket) && forall|j: int|
                0 <= j < i ==> !zone_contains(#[trigger] zones[j], bucket);
        let gap = zones[cur].hi - 1 - (bucket as i32);
        if gap <= RAMP_WINDOW && cur + 1 < zones.len() {
            let phase1 = rollout_frames * 7 / 10;
            seq![
                (FrameSource::Zone(cur as usize), phase1),
                (FrameSource::Zone((cur + 1) as usize), rollout_frames - phase1),
            ]
        } else {
            seq![(FrameSource::Zone(cur as usize), rollout_frames as int)]
        }
    } else if zones.len() > 0 {
        seq![(FrameSource::Zone((zones.len() - 1) as usize), rollout_frames as int)]
    } else {
        seq![(FrameSource::Unconstrained, rollout_frames as int)]
    }
}

/// Whether a burst is run: the frame is not empty, there is at least one
/// frame (or byte of frames) to run, and the snapshot holds the whole
/// struct; otherwise the burst is skipped.
pub fn burst_runs(frame_size: usize, frames: usize, snapshot_len: usize, struct_size: usize) -> (b: bool)
    ensures
        b == (frame_size > 0 && frames > 0 && snapshot_len >= struct_size),
{
    frame_size != 0 && frames != 0 && snapshot_len >= struct_size
}

/// The phases of a zone-aware burst (see `burst_plan`).
pub fn primary_frame_plan(zones: &[ZoneConstraint], bucket: usize, rollout_frames: usize) -> (r: Vec<
    (FrameSource, usize),
>)
    requires
        rollout_frames * 7 <= usize::MAX,
    ensures
        r@.map_values(|p: (FrameSource, usize)| (p.0, p.1 as int)) == burst_plan(
            zones@,
            bucket,
            rollout_frames,
        ),
{
    let mut out: Vec<(FrameSource, usize)> = Vec::new();
    match find_zone_idx(zones, bucket) {
        Some(cur) => {
            proof {
                let c = choose|i: int|
                    0 <= i < zones@.len() && zone_contains(zones@[i], bucket) && forall|j: int|
                        0 <= j < i ==> !zone_contains(#[trigger] zones@[j], bucket);
                assert(zone_contains(zones@[cur as int], bucket));
                if c < cur {
                    assert(!zone_contains(zones@[c], bucket));
                } else if c > cur {
                    assert(!zone_contains(zones@[cur as int], bucket));
                }
                assert(c == cur);
            }
            let gap: i64 = zones[cur].hi as i64 - 1 - (bucket as i32) as i64;
            if gap <= RAMP_WINDOW as i64 && cur + 1 < zones.len() {
                let phase1 = rollout_frames * 7 / 10;
                out.push((FrameSource::Zone(cur), phase1));
                out.push((FrameSource::Zone(cur + 1), rollout_frames - phase1));
            } else {
                out.push((FrameSource::Zone(cur), rollout_frames));
            }
        },
        None => {
            if zones.len() > 0 {
                out.push((FrameSource::Zone(zones.len() - 1), rollout_frames));
            } else {
                out.push((FrameSource::Unconstrained, rollout_frames));
            }
        },
    }
    assert(out@.map_values(|p: (FrameSource, usize)| (p.0, p.1 as int)) =~= burst_plan(
        zones@,
        bucket,
        rollout_frames,
    ));
    out
}

/// The bucket a checkpoint header reports, when the report is valid: the
/// flag is set, the generation is the expected one, the bucket is inside the
/// table and, for a burst from bucket `from`, above it.
pub open spec fn accepted_bucket(h: Seq<u8>, expected_gen: u16, table_len: int, from: Option<usize>) -> Option<int> {
    let b = u16_le(h[1], h[2]);
    if h[0] == 1 && u16_le(h[3], h[4]) == expected_gen && b < table_len && match from {
        Some(f) => b > f,
        None => true,
    } {
        Some(b)
    } else {
        None
    }
}

/// Reads a checkpoint header after a run: the reported bucket when the
/// report is valid (see `accepted_bucket`).
pub fn checkpoint_report(header: &[u8], expected_gen: u16, table_len: usize, from: Option<usize>) -> (r:
    Option<usize>)
    requires
        header@.len() >= 5,
    ensures
        match r {
            Some(b) => accepted_bucket(header@, expected_gen, table_len as int, from) == Some(b as int),
            None => accepted_bucket(header@, expected_gen, table_len as int, from) is None,
        },
{
    if header[0] != 1 {
        return None;
    }
    let b = chk_read_bucket(header);
    let g = chk_read_gen(header);
    if g != expected_gen || b >= table_len {
        return None;
    }
    match from {
        Some(f) => if b > f {
            Some(b)
        } else {
            None
        },
        None => Some(b),
    }
}

// ---------------------------------------------------------------------------
// Progress stages
// ---------------------------------------------------------------------------

/// A stage of progress: an accumulating state variable that has to grow
/// before the main discriminant does, counted while the field named in
/// `gate_field` holds `gate_eq_value`.
#[derive(Debug, Clone)]
pub struct ProgressStage {
    pub stage: usize,
    pub name: String,
    pub discriminant_field: String,
    pub discriminant_offset: usize,
    pub discriminant_size: usize,
    /// The highest value the stage's discriminant can reach.
    pub max_value: usize,
    pub gate_field: String,
    pub gate_offset: usize,
    pub gate_size: usize,
    pub gate_eq_value: i32,
    pub burst_field_constraints: Vec<(String, FieldRange)>,
}

/// A progress stage with its checkpoints, indexed by discriminant value.
pub struct StageRuntime {
    pub cfg: ProgressStage,
    pub table: CheckpointTable,
}

impl StageRuntime {
    /// A stage with an empty checkpoint slot for each value `0..=max_value`.
    pub fn new(cfg: ProgressStage) -> (r: Self)
        requires
            cfg.max_value < usize::MAX,
        ensures
            r.cfg == cfg,
            r.table@.len() == cfg.max_value + 1,
            forall|i: int| 0 <= i < r.table@.len() ==> #[trigger] r.table@[i] is None,
    {
        let len = cfg.max_value + 1;
        let mut table: CheckpointTable = Vec::new();
        let mut i: usize = 0;
        while i < len
            invariant
                i <= len,
                table@.len() == i,
                forall|j: int| 0 <= j < i ==> #[trigger] table@[j] is None,
            decreases len - i,
        {
            table.push(None);
            i += 1;
        }
        StageRuntime { cfg, table }
    }

    /// The checkpoint with the highest discriminant value: its value,
    /// snapshot and quality.
    pub fn best_entry(&self) -> (r: Option<(usize, &Vec<u8>, u32)>)
        ensures
            match r {
                Some((i, s, q)) => i < self.table@.len() && self.table@[i as int] == Some((*s, q))
                    && forall|j: int| i < j < self.table@.len() ==> #[trigger] self.table@[j] is None,
                None => forall|j: int| 0 <= j < self.table@.len() ==> #[trigger] self.table@[j] is None,
            },
    {
        match best_bucket(&self.table) {
            Some(i) => match &self.table[i] {
                Some(p) => Some((i, &p.0, p.1)),
                None => None,
            },
            None => None,
        }
    }

    /// Records a checkpoint at discriminant value `bucket` with the value as
    /// its quality, when the slot exists and is empty or worse.
    pub fn update(&mut self, bucket: usize, snap: Vec<u8>)
        ensures
            final(self).cfg == old(self).cfg,
            final(self).table@.len() == old(self).table@.len(),
            if bucket < old(self).table@.len() && improves(old(self).table@[bucket as int], bucket as u32) {
                final(self).table@[bucket as int] == Some((snap, bucket as u32)) && forall|i: int|
                    0 <= i < old(self).table@.len() && i != bucket ==> final(self).table@[i]
                    == old(self).table@[i]
            } else {
                final(self).table@ == old(self).table@
            },
    {
        let quality = #[verifier::truncate] (bucket as u32);
        let _ = offer_checkpoint(&mut self.table, bucket, snap, quality);
    }
}


// ---------------------------------------------------------------------------
// Routing checkpoints and bursts
// ---------------------------------------------------------------------------

/// Where a checkpoint a fuzzing run reported goes.
#[derive(Debug, Clone, Copy, PartialEq, Eq, Structural)]
pub enum CheckpointRoute {
    /// The primary checkpoint table.
    Primary,
    /// The table of this progress stage.
    Stage(usize),
    /// Nowhere: an unknown stage, or a value beyond the stage's range.
    Ignore,
}

/// The route of a checkpoint of stage `stage` at `bucket`: the primary
/// table for the primary stage id, a stage's table when the stage exists
/// and the value is within its range, else nowhere.
pub open spec fn checkpoint_route_spec(stage: u8, bucket: usize, stages: Seq<StageRuntime>) -> CheckpointRoute {
    if stage == STAGE_PRIMARY {
        CheckpointRoute::Primary
    } else if (stage as int) < stages.len() && bucket <= stages[stage as int].cfg.max_value {
        CheckpointRoute::Stage(stage as usize)
    } else {
        CheckpointRoute::Ignore
    }
}

/// Routes a reported checkpoint (see `checkpoint_route_spec`).
pub fn checkpoint_route(stage: u8, bucket: usize, stages: &Vec<StageRuntime>) -> (r: CheckpointRoute)
    ensures
        r == checkpoint_route_spec(stage, bucket, stages@),
{
    if stage == STAGE_PRIMARY {
        CheckpointRoute::Primary
    } else {
        let s = stage as usize;
        if s < stages.len() && bucket <= stages[s].cfg.max_value {
            CheckpointRoute::Stage(s)
        } else {
            CheckpointRoute::Ignore
        }
    }
}

/// Whether a stage holds a checkpoint.
pub open spec fn stage_has_checkpoint(s: StageRuntime) -> bool {
    exists|j: int| 0 <= j < s.table@.len() && #[trigger] s.table@[j] is Some
}

/// The stage the explorer bursts from when the primary table is empty: the
/// last stage that holds a checkpoint, if any.
pub fn fallback_stage(stages: &Vec<StageRuntime>) -> (r: Option<usize>)
    ensures
        match r {
            Some(i) => i < stages@.len() && stage_has_checkpoint(stages@[i as int]) && forall|k: int|
                i < k < stages@.len() ==> !stage_has_checkpoint(#[trigger] stages@[k]),
            None => forall|k: int| 0 <= k < stages@.len() ==> !stage_has_checkpoint(#[trigger] stages@[k]),
        },
{
    let mut i: usize = stages.len();
    while i > 0
        invariant
            i <= stages@.len(),
            forall|k: int| i <= k < stages@.len() ==> !stage_has_checkpoint(#[trigger] stages@[k]),
        decreases i,
    {
        let e = stages[i - 1].best_entry();
        match e {
            Some((j, _, _)) => {
                assert(stages@[i - 1].table@[j as int] is Some);
                return Some(i - 1);
            },
            None => {},
        }
        i -= 1;
    }
    None
}

/// Whether a burst from checkpoint `bucket` of stage `stage` reported a
/// further checkpoint to keep: the run reported (flag 1) for that stage a
/// value above `bucket` and at most `limit`.
pub fn burst_advance(flag: u8, reported_stage: u8, stage: u8, reported_bucket: usize, bucket: usize, limit: usize) -> (r:
    bool)
    ensures
        r == (flag == 1 && reported_stage == stage && bucket < reported_bucket && reported_bucket <= limit),
{
    flag == 1 && reported_stage == stage && bucket < reported_bucket && reported_bucket <= limit
}

/// Bursts per checkpoint when the round-robin strategy shares
/// `burst_repeats` among `filled` checkpoints: the even share, at least one.
pub fn round_robin_repeats(burst_repeats: usize, filled: usize) -> (r: usize)
    requires
        filled > 0,
    ensures
        r == if burst_repeats / filled >= 1 { burst_repeats / filled } else { 1 },
{
    let share = burst_repeats / filled;
    if share >= 1 {
        share
    } else {
        1
    }
}

// ---------------------------------------------------------------------------
// Best state of a burst
// ---------------------------------------------------------------------------

/// `dst` with its first bytes replaced by those of `src` (as many as both have).
pub open spec fn copy_prefix(dst: Seq<u8>, src: Seq<u8>) -> Seq<u8> {
    Seq::new(dst.len(), |i: int| if i < src.len() { src[i] } else { dst[i] })
}

/// The best state a forked burst has seen: the largest discriminant value
/// (-1 before any) and a copy of the snapshot in which it was reached.
pub struct BurstBest {
    pub max: i32,
    pub snap: Vec<u8>,
}

impl BurstBest {
    /// Nothing seen yet, with room for an instance of `struct_size` bytes.
    pub fn new(struct_size: usize) -> (r: Self)
        ensures
            r.max == -1,
            r.snap@ == Seq::new(struct_size as nat, |i: int| 0u8),
    {
        let mut snap: Vec<u8> = Vec::new();
        let mut i: usize = 0;
        while i < struct_size
            invariant
                i <= struct_size,
                snap@ == Seq::new(i as nat, |k: int| 0u8),
            decreases struct_size - i,
        {
            snap.push(0u8);
            i += 1;
            assert(snap@ =~= Seq::new(i as nat, |k: int| 0u8));
        }
        BurstBest { max: -1, snap }
    }

    /// Observes a snapshot after one frame: when its discriminant (the
    /// `size`-byte value at `offset`, see `read_i32_from_state`) beats the
    /// best so far, it becomes the best and the snapshot is copied.
    pub fn observe(&mut self, snap: &[u8], offset: usize, size: usize)
        requires
            offset + size <= usize::MAX,
        ensures
            ({
                let v = crate::state_hash::read_i32_spec(snap@, offset as int, size as int);
                if v > old(self).max {
                    final(self).max == v && final(self).snap@ == copy_prefix(old(self).snap@, snap@)
                } else {
                    *final(self) == *old(self)
                }
            }),
    {
        let v = crate::state_hash::read_i32_from_state(snap, offset, size);
        if v > self.max {
            self.max = v;
            let n = if snap.len() < self.snap.len() { snap.len() } else { self.snap.len() };
            let ghost orig = self.snap@;
            let mut i: usize = 0;
            while i < n
                invariant
                    i <= n,
                    self.max == v,
                    n <= snap@.len(),
                    n <= orig.len(),
                    n == (if snap@.len() < orig.len() { snap@.len() } else { orig.len() }),
                    self.snap@ == Seq::new(orig.len(), |k: int| if k < i { snap@[k] } else { orig[k] }),
                decreases n - i,
            {
                self.snap.set(i, snap[i]);
                i += 1;
                assert(self.snap@ =~= Seq::new(orig.len(), |k: int| if k < i { snap@[k] } else { orig[k] }));
            }
            assert(self.snap@ =~= copy_prefix(orig, snap@));
        }
    }

    /// The bucket the burst reports back: its best discriminant, when positive.
    pub fn reported_bucket(&self) -> (r: Option<usize>)
        ensures
            r == (if self.max > 0 { Some(self.max as usize) } else { None::<usize> }),
    {
        if self.max > 0 {
            Some(self.max as usize)
        } else {
            None
        }
    }
}

// ---------------------------------------------------------------------------
// Progress reports of a testcase
// ---------------------------------------------------------------------------

/// The stage id a checkpoint header carries for the main discriminant.
pub const STAGE_PRIMARY: u8 = 0xFF;

/// The best state one progress stage has reached in a testcase: its
/// discriminant counts only in snapshots where the field at `gate_offset`
/// holds `gate_eq_value`.
pub struct StageTrack {
    pub disc_offset: usize,
    pub disc_size: usize,
    pub gate_offset: usize,
    pub gate_size: usize,
    pub gate_eq_value: i32,
    pub best: BurstBest,
}

impl StageTrack {
    /// Tracking for a stage, with room for instances of `struct_size` bytes.
    pub fn new(stage: &ProgressStage, struct_size: usize) -> (r: Self)
        ensures
            r.disc_offset == stage.discriminant_offset,
            r.disc_size == stage.discriminant_size,
            r.gate_offset == stage.gate_offset,
            r.gate_size == stage.gate_size,
            r.gate_eq_value == stage.gate_eq_value,
            r.best.max == -1,
            r.best.snap@ == Seq::new(struct_size as nat, |i: int| 0u8),
    {
        StageTrack {
            disc_offset: stage.discriminant_offset,
            disc_size: stage.discriminant_size,
            gate_offset: stage.gate_offset,
            gate_size: stage.gate_size,
            gate_eq_value: stage.gate_eq_value,
            best: BurstBest::new(struct_size),
        }
    }

    /// Observes a snapshot: when the field at `gate_offset` holds
    /// `gate_eq_value`, the stage's discriminant is observed as
    /// `BurstBest::observe` does; otherwise nothing changes.
    pub fn observe(&mut self, snap: &[u8])
        requires
            old(self).disc_offset + old(self).disc_size <= usize::MAX,
            old(self).gate_offset + old(self).gate_size <= usize::MAX,
        ensures
            final(self).disc_offset == old(self).disc_offset,
            final(self).disc_size == old(self).disc_size,
            final(self).gate_offset == old(self).gate_offset,
            final(self).gate_size == old(self).gate_size,
            final(self).gate_eq_value == old(self).gate_eq_value,
            ({
                let gate = crate::state_hash::read_i32_spec(snap@, old(self).gate_offset as int, old(self).gate_size as int);
                let v = crate::state_hash::read_i32_spec(snap@, old(self).disc_offset as int, old(self).disc_size as int);
                if gate == old(self).gate_eq_value && v > old(self).best.max {
                    final(self).best.max == v && final(self).best.snap@ == copy_prefix(old(self).best.snap@, snap@)
                } else {
                    final(self).best == old(self).best
                }
            }),
    {
        let gate = crate::state_hash::read_i32_from_state(snap, self.gate_offset, self.gate_size);
        if gate == self.gate_eq_value {
            self.best.observe(snap, self.disc_offset, self.disc_size);
        }
    }
}

/// The index of the last of the first `n` values that is positive.
pub open spec fn last_positive(s: Seq<i32>, n: int) -> Option<int>
    decreases n,
{
    if n <= 0 {
        None
    } else if s[n - 1] > 0 {
        Some(n - 1)
    } else {
        last_positive(s, n - 1)
    }
}

/// What a testcase reports back: the main discriminant's best value when
/// positive; otherwise the positive best of the highest-numbered stage that
/// has one (its stage id is its index); nothing when none advanced.
pub open spec fn progress_report_spec(primary_max: i32, stage_maxes: Seq<i32>) -> Option<(u8, usize, int)> {
    if primary_max > 0 {
        Some((STAGE_PRIMARY, primary_max as usize, -1))
    } else {
        match last_positive(stage_maxes, stage_maxes.len() as int) {
            Some(i) => Some((i as u8, stage_maxes[i] as usize, i)),
            None => None,
        }
    }
}

/// The report of a testcase (see `progress_report_spec`): the stage id, the
/// bucket, and which stage's snapshot goes with it (`None` for the main
/// discriminant).
pub fn progress_report(primary: &BurstBest, stages: &Vec<StageTrack>) -> (r: Option<(u8, usize, Option<usize>)>)
    requires
        stages@.len() <= 255,
    ensures
        ({
            let maxes = stages@.map_values(|t: StageTrack| t.best.max);
            match progress_report_spec(primary.max, maxes) {
                Some((id, b, i)) => r == Some((id, b, if i < 0 { None::<usize> } else { Some(i as usize) })),
                None => r is None,
            }
        }),
{
    let ghost maxes = stages@.map_values(|t: StageTrack| t.best.max);
    if primary.max > 0 {
        return Some((STAGE_PRIMARY, primary.max as usize, None));
    }
    let mut i = stages.len();
    while i > 0
        invariant
            i <= stages@.len() <= 255,
            primary.max <= 0,
            maxes == stages@.map_values(|t: StageTrack| t.best.max),
            last_positive(maxes, maxes.len() as int) == last_positive(maxes, i as int),
        decreases i,
    {
        let m = stages[i - 1].best.max;
        if m > 0 {
            assert(maxes[i - 1] == m);
            return Some(((i - 1) as u8, m as usize, Some(i - 1)));
        }
        i -= 1;
    }
    None
}

} // verus!
