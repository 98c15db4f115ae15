//! Structure-aware mutations of a testcase (a sequence of input frames).
//!
//! Each mutation takes its random values as a slice of draws, used in order;
//! the fuzzer supplies them from its random source.
use vstd::prelude::*;
use crate::fields::{FieldRole, FieldValueModel, InputFieldSpec};

verus! {

/// Whether a mutation changed the testcase.
#[derive(Debug, Clone, Copy, PartialEq, Eq, Structural)]
pub enum MutationResult {
    Mutated,
    Skipped,
}

/// A random index below `upper` from a draw; `None` when `upper` is 0.
pub open spec fn pick(draw: u64, upper: usize) -> Option<usize> {
    if upper == 0 {
        None
    } else {
        Some(((draw as usize) % upper) as usize)
    }
}

/// A random index below `upper` from the draw `draw`, `None` when `upper` is
/// 0.
pub fn pick_usize(draw: u64, upper: usize) -> (r: Option<usize>)
    ensures
        r == pick(draw, upper),
{
    if upper == 0 {
        return None;
    }
    Some((#[verifier::truncate] (draw as usize)) % upper)
}

/// The little-endian bytes of an `i16`.
pub open spec fn i16_bytes(v: i16) -> Seq<u8> {
    let u: int = if v < 0 { v + 65536 } else { v as int };
    seq![(u % 256) as u8, (u / 256) as u8]
}

fn i16_to_le(v: i16) -> (r: Vec<u8>)
    ensures
        r@ == i16_bytes(v),
{
    let u: u32 = if v < 0 { (v as i32 + 65536) as u32 } else { v as u32 };
    let mut r: Vec<u8> = Vec::new();
    r.push((u % 256) as u8);
    r.push((u / 256) as u8);
    assert(r@ =~= i16_bytes(v));
    r
}

proof fn lemma_frame_pos(f: int, off: int, fs: int)
    requires
        0 <= off < fs,
        0 <= f,
    ensures
        (f * fs + off) / fs == f,
        (f * fs + off) % fs == off,
{
    vstd::arithmetic::div_mod::lemma_fundamental_div_mod_converse(f * fs + off, fs, f, off);
}

// ---------------------------------------------------------------------------
// Accumulation windows
// ---------------------------------------------------------------------------

/// Stamps a frame with every driver field at one of its target values across
/// a window of at least `min_window` consecutive frames.
#[derive(Debug, Clone)]
pub struct AccumulationWindowMutator {
    pub frame_size: usize,
    /// Driver fields: frame offset and the byte strings to choose from.
    pub driver_fields: Vec<(usize, Vec<Vec<u8>>)>,
    pub inhibitor_offsets: Vec<usize>,
    pub min_window: usize,
}

/// The byte strings as sequences.
pub open spec fn candidates_view(c: Seq<Vec<u8>>) -> Seq<Seq<u8>> {
    c.map_values(|v: Vec<u8>| v@)
}

/// The driver entry a field gives: a non-inhibitor `i16` field with targets
/// offers their little-endian bytes, an activator flag offers `1`.
pub open spec fn driver_entry(f: InputFieldSpec) -> Option<(usize, Seq<Seq<u8>>)> {
    if f.role == FieldRole::Inhibitor {
        None
    } else {
        match f.model {
            FieldValueModel::I16 { targets } => if targets@.len() > 0 {
                Some((f.offset, targets@.map_values(|v: i16| i16_bytes(v))))
            } else {
                None
            },
            FieldValueModel::Bool => if f.role == FieldRole::Activator {
                Some((f.offset, seq![seq![1u8]]))
            } else {
                None
            },
            FieldValueModel::Raw => None,
        }
    }
}

/// The offset an inhibitor field gives.
pub open spec fn inhibitor_entry(f: InputFieldSpec) -> Option<usize> {
    if f.role == FieldRole::Inhibitor {
        Some(f.offset)
    } else {
        None
    }
}

impl AccumulationWindowMutator {
    /// The driver entries as sequences.
    pub open spec fn drivers(&self) -> Seq<(usize, Seq<Seq<u8>>)> {
        self.driver_fields@.map_values(|d: (usize, Vec<Vec<u8>>)| (d.0, candidates_view(d.1@)))
    }

    /// The mutator for frames of `frame_size` bytes with the given fields:
    /// their driver entries and inhibitor offsets in field order, and a
    /// minimum window of 9 frames.
    pub fn new(frame_size: usize, fields: &[InputFieldSpec]) -> (r: Self)
        ensures
            r.frame_size == frame_size,
            r.drivers() == crate::text::collect_some(fields@, |f: InputFieldSpec| driver_entry(f)),
            r.inhibitor_offsets@ == crate::text::collect_some(
                fields@,
                |f: InputFieldSpec| inhibitor_entry(f),
            ),
            r.min_window == 9,
    {
        let ghost fd = |f: InputFieldSpec| driver_entry(f);
        let ghost fi = |f: InputFieldSpec| inhibitor_entry(f);
        let mut drivers: Vec<(usize, Vec<Vec<u8>>)> = Vec::new();
        let mut inhibitors: Vec<usize> = Vec::new();
        let mut i: usize = 0;
        while i < fields.len()
            invariant
                i <= fields@.len(),
                fd == (|f: InputFieldSpec| driver_entry(f)),
                fi == (|f: InputFieldSpec| inhibitor_entry(f)),
                drivers@.map_values(|d: (usize, Vec<Vec<u8>>)| (d.0, candidates_view(d.1@)))
                    == crate::text::collect_some(fields@.take(i as int), fd),
                inhibitors@ == crate::text::collect_some(fields@.take(i as int), fi),
            decreases fields@.len() - i,
        {
            proof {
                crate::text::lemma_collect_some_step(fields@, i as int, fd);
                crate::text::lemma_collect_some_step(fields@, i as int, fi);
            }
            let f = &fields[i];
            let ghost before = drivers@;
            match f.role {
                FieldRole::Inhibitor => {
                    inhibitors.push(f.offset);
                },
                _ => {
                    match &f.model {
                        FieldValueModel::I16 { targets } => {
                            if targets.len() > 0 {
                                let mut cands: Vec<Vec<u8>> = Vec::new();
                                let mut k: usize = 0;
                                while k < targets.len()
                                    invariant
                                        k <= targets@.len(),
                                        candidates_view(cands@) == targets@.take(k as int).map_values(
                                            |v: i16| i16_bytes(v),
                                        ),
                                    decreases targets@.len() - k,
                                {
                                    let ghost cb = cands@;
                                    let b = i16_to_le(targets[k]);
                                    cands.push(b);
                                    k += 1;
                                    assert(candidates_view(cands@) =~= candidates_view(cb).push(
                                        i16_bytes(targets@[k - 1]),
                                    ));
                                    assert(targets@.take(k as int).map_values(|v: i16| i16_bytes(v))
                                        =~= targets@.take(k - 1).map_values(|v: i16| i16_bytes(v)).push(
                                        i16_bytes(targets@[k - 1]),
                                    ));
                                }
                                assert(targets@.take(targets@.len() as int) == targets@);
                                let ghost cv = candidates_view(cands@);
                                drivers.push((f.offset, cands));
                                assert(drivers@.map_values(
                                    |d: (usize, Vec<Vec<u8>>)| (d.0, candidates_view(d.1@)),
                                ) =~= before.map_values(
                                    |d: (usize, Vec<Vec<u8>>)| (d.0, candidates_view(d.1@)),
                                ).push((f.offset, cv)));
                            }
                        },
                        FieldValueModel::Bool => {
                            match f.role {
                                FieldRole::Activator => {
                                    let mut one: Vec<u8> = Vec::new();
                                    one.push(1);
                                    let mut cands: Vec<Vec<u8>> = Vec::new();
                                    cands.push(one);
                                    assert(candidates_view(cands@) =~= seq![seq![1u8]]);
                                    drivers.push((f.offset, cands));
                                    assert(drivers@.map_values(
                                        |d: (usize, Vec<Vec<u8>>)| (d.0, candidates_view(d.1@)),
                                    ) =~= before.map_values(
                                        |d: (usize, Vec<Vec<u8>>)| (d.0, candidates_view(d.1@)),
                                    ).push((f.offset, seq![seq![1u8]])));
                                },
                                _ => {},
                            }
                        },
                        FieldValueModel::Raw => {},
                    }
                },
            }
            i += 1;
        }
        assert(fields@.take(fields@.len() as int) == fields@);
        AccumulationWindowMutator {
            frame_size,
            driver_fields: drivers,
            inhibitor_offsets: inhibitors,
            min_window: 9,
        }
    }
}

/// `n` zero bytes.
pub open spec fn zeros(n: nat) -> Seq<u8> {
    Seq::new(n, |i: int| 0u8)
}

/// The frame with every driver (of the first `k`) set to one of its byte
/// strings chosen by a draw, in order from draw `c0`, each cut to the frame:
/// the frame and the next draw position.
pub open spec fn good_frame(
    ds: Seq<(usize, Seq<Seq<u8>>)>,
    k: int,
    fs: nat,
    draws: Seq<u64>,
    c0: int,
) -> (Seq<u8>, int)
    decreases k,
{
    if k <= 0 {
        (zeros(fs), c0)
    } else {
        let (g, c) = good_frame(ds, k - 1, fs, draws, c0);
        let off = ds[k - 1].0;
        let cands = ds[k - 1].1;
        if cands.len() == 0 {
            (g, c)
        } else {
            let val = cands[((draws[c] as usize) % (cands.len() as usize)) as int];
            let room: int = if off <= fs { fs - off } else { 0 };
            let wl: int = if val.len() < room { val.len() as int } else { room };
            (Seq::new(fs, |i: int| if off <= i < off + wl { val[i - off] } else { g[i] }), c + 1)
        }
    }
}

/// `bytes` with frames `[ws, we)` (of `fs` bytes each) replaced by `frame`.
pub open spec fn stamp(bytes: Seq<u8>, frame: Seq<u8>, fs: int, ws: int, we: int) -> Seq<u8> {
    Seq::new(bytes.len(), |i: int| if ws * fs <= i < we * fs { frame[i % fs] } else { bytes[i] })
}

impl AccumulationWindowMutator {
    /// Every driver offset lies within a frame.
    pub open spec fn offsets_fit(&self) -> bool {
        forall|k: int| 0 <= k < self.driver_fields@.len() ==> #[trigger] self.driver_fields@[k].0
            <= self.frame_size
    }

    /// What a mutation does with the given draws: nothing when there are no
    /// drivers or fewer than `min_window` frames; else it builds the good
    /// frame, draws a window length from `min_window` to the frame count and
    /// a start, and stamps the good frame over the window.
    pub open spec fn mutation(&self, bytes: Seq<u8>, draws: Seq<u64>) -> (MutationResult, Seq<u8>) {
        let fs = self.frame_size;
        let ds = self.drivers();
        if fs == 0 || ds.len() == 0 {
            (MutationResult::Skipped, bytes)
        } else {
            let fc: int = (bytes.len() as int) / (fs as int);
            if fc < self.min_window {
                (MutationResult::Skipped, bytes)
            } else {
                let (g, c) = good_frame(ds, ds.len() as int, fs as nat, draws, 0);
                let wl: int = self.min_window + ((draws[c] as usize) % ((fc - self.min_window
                    + 1) as usize)) as int;
                let ws: int = ((draws[c + 1] as usize) % ((fc - wl + 1) as usize)) as int;
                let we: int = if ws + wl < fc { ws + wl } else { fc };
                (MutationResult::Mutated, stamp(bytes, g, fs as int, ws, we))
            }
        }
    }

    /// Applies the mutation to `bytes` with the given draws (see `mutation`).
    pub fn mutate(&self, bytes: &mut Vec<u8>, draws: &[u64]) -> (r: MutationResult)
        requires
            self.offsets_fit(),
            draws@.len() >= self.driver_fields@.len() + 2,
            old(bytes)@.len() < usize::MAX,
        ensures
            (r, final(bytes)@) == self.mutation(old(bytes)@, draws@),
    {
        let fs = self.frame_size;
        if fs == 0 || self.driver_fields.len() == 0 {
            return MutationResult::Skipped;
        }
        let fc = bytes.len() / fs;
        if fc < self.min_window {
            return MutationResult::Skipped;
        }
        let ghost ds = self.drivers();
        let mut good: Vec<u8> = Vec::new();
        let mut z: usize = 0;
        while z < fs
            invariant
                z <= fs,
                good@ == zeros(z as nat),
            decreases fs - z,
        {
            good.push(0);
            z += 1;
            assert(good@ =~= zeros(z as nat));
        }
        let nd = self.driver_fields.len();
        let mut c: usize = 0;
        let mut k: usize = 0;
        while k < nd
            invariant
                k <= nd,
                nd == self.driver_fields@.len(),
                ds == self.drivers(),
                self.offsets_fit(),
                fs == self.frame_size,
                draws@.len() >= nd + 2,
                c <= k,
                good@.len() == fs,
                (good@, c as int) == good_frame(ds, k as int, fs as nat, draws@, 0),
            decreases nd - k,
        {
            let off = self.driver_fields[k].0;
            let cands = &self.driver_fields[k].1;
            assert(ds[k as int].0 == off && ds[k as int].1 == candidates_view(cands@));
            if cands.len() > 0 {
                let vi = (#[verifier::truncate] (draws[c] as usize)) % cands.len();
                let val = &cands[vi];
                assert(val@ == candidates_view(cands@)[vi as int]);
                let room = fs - off;
                let wl = if val.len() < room { val.len() } else { room };
                let ghost g0 = good@;
                let mut j: usize = 0;
                while j < wl
                    invariant
                        j <= wl,
                        wl <= val@.len(),
                        off + wl <= fs,
                        good@.len() == fs,
                        good@ == Seq::new(fs as nat, |i: int| if off <= i < off + j { val@[i - off] } else { g0[i] }),
                    decreases wl - j,
                {
                    good.set(off + j, val[j]);
                    j += 1;
                    assert(good@ =~= Seq::new(fs as nat, |i: int| if off <= i < off + j { val@[i - off] } else { g0[i] }));
                }
                c += 1;
            }
            k += 1;
        }
        let span = fc - self.min_window + 1;
        let wl = self.min_window + (#[verifier::truncate] (draws[c] as usize)) % span;
        let ws = (#[verifier::truncate] (draws[c + 1] as usize)) % (fc - wl + 1);
        let we = if ws + wl < fc { ws + wl } else { fc };
        assert(good@.len() == fs);
        let ghost orig = bytes@;
        let blen = bytes.len();
        let mut f = ws;
        assert(stamp(orig, good@, fs as int, ws as int, ws as int) =~= orig);
        while f < we
            invariant
                ws <= f <= we <= fc,
                blen == orig.len(),
                fc == (orig.len() as int) / (fs as int),
                fs > 0,
                good@.len() == fs,
                bytes@ == stamp(orig, good@, fs as int, ws as int, f as int),
            decreases we - f,
        {
            assert(f * fs + fs <= fc * fs) by (nonlinear_arith)
                requires f < fc, fs > 0;
            assert(fc * fs <= orig.len()) by (nonlinear_arith)
                requires fc == (orig.len() as int) / (fs as int), fs > 0;
            assert(f * fs + fs <= blen);
            let base = f * fs;
            let mut j: usize = 0;
            while j < fs
                invariant
                    j <= fs,
                    base == f * fs,
                    base + fs <= orig.len(),
                    blen == orig.len(),
                    fs > 0,
                    good@.len() == fs,
                    bytes@ == Seq::new(orig.len(), |i: int| if ws * fs <= i < base + j { good@[i % (fs as int)] } else { orig[i] }),
                    ws <= f,
                decreases fs - j,
            {
                proof { lemma_frame_pos(f as int, j as int, fs as int); }
                assert(ws * fs <= f * fs) by (nonlinear_arith)
                    requires ws <= f;
                bytes.set(base + j, good[j]);
                j += 1;
                assert(bytes@ =~= Seq::new(orig.len(), |i: int| if ws * fs <= i < base + j { good@[i % (fs as int)] } else { orig[i] }));
            }
            assert(base + fs == (f + 1) * fs) by (nonlinear_arith)
                requires base == f * fs;
            f += 1;
            assert(bytes@ =~= stamp(orig, good@, fs as int, ws as int, f as int));
        }
        MutationResult::Mutated
    }
}

proof fn lemma_in_frame(i: int, f: int, fs: int)
    requires
        fs > 0,
        f * fs <= i < f * fs + fs,
    ensures
        i / fs == f,
        i % fs == i - f * fs,
{
    vstd::arithmetic::div_mod::lemma_fundamental_div_mod_converse(i, fs, f, i - f * fs);
}

// ---------------------------------------------------------------------------
// Frame patterns
// ---------------------------------------------------------------------------

/// Frame-level patterns: repeating a frame, pulsing an activator flag, and
/// holding an inhibitor flag low over a window.
#[derive(Debug, Clone)]
pub struct FramePatternMutator {
    pub frame_size: usize,
    pub activator_offsets: Vec<usize>,
    pub inhibitor_offsets: Vec<usize>,
}

/// The offset of a flag field that is not an inhibitor.
pub open spec fn activator_entry(f: InputFieldSpec) -> Option<usize> {
    if f.model is Bool && f.role != FieldRole::Inhibitor {
        Some(f.offset)
    } else {
        None
    }
}

/// The offset of a flag field that is an inhibitor.
pub open spec fn inhibitor_flag_entry(f: InputFieldSpec) -> Option<usize> {
    if f.model is Bool && f.role == FieldRole::Inhibitor {
        Some(f.offset)
    } else {
        None
    }
}

/// `bytes` with the byte at offset `off` of frames `[ws, we)` set to `v`.
pub open spec fn set_in_frames(bytes: Seq<u8>, fs: int, off: int, ws: int, we: int, v: u8) -> Seq<u8> {
    Seq::new(bytes.len(), |i: int| if i % fs == off && ws * fs <= i < we * fs { v } else { bytes[i] })
}

impl FramePatternMutator {
    /// The mutator for frames of `frame_size` bytes with the given fields:
    /// the offsets of their flag fields, activators and inhibitors apart.
    pub fn new(frame_size: usize, fields: &[InputFieldSpec]) -> (r: Self)
        ensures
            r.frame_size == frame_size,
            r.activator_offsets@ == crate::text::collect_some(fields@, |f: InputFieldSpec| activator_entry(f)),
            r.inhibitor_offsets@ == crate::text::collect_some(
                fields@,
                |f: InputFieldSpec| inhibitor_flag_entry(f),
            ),
    {
        let ghost fa = |f: InputFieldSpec| activator_entry(f);
        let ghost fi = |f: InputFieldSpec| inhibitor_flag_entry(f);
        let mut act: Vec<usize> = Vec::new();
        let mut inh: Vec<usize> = Vec::new();
        let mut i: usize = 0;
        while i < fields.len()
            invariant
                i <= fields@.len(),
                fa == (|f: InputFieldSpec| activator_entry(f)),
                fi == (|f: InputFieldSpec| inhibitor_flag_entry(f)),
                act@ == crate::text::collect_some(fields@.take(i as int), fa),
                inh@ == crate::text::collect_some(fields@.take(i as int), fi),
            decreases fields@.len() - i,
        {
            proof {
                crate::text::lemma_collect_some_step(fields@, i as int, fa);
                crate::text::lemma_collect_some_step(fields@, i as int, fi);
            }
            let f = &fields[i];
            match f.model {
                FieldValueModel::Bool => {
                    match f.role {
                        FieldRole::Inhibitor => inh.push(f.offset),
                        _ => act.push(f.offset),
                    }
                },
                _ => {},
            }
            i += 1;
        }
        assert(fields@.take(fields@.len() as int) == fields@);
        FramePatternMutator { frame_size, activator_offsets: act, inhibitor_offsets: inh }
    }

    /// Every flag offset lies within a frame.
    pub open spec fn offsets_fit(&self) -> bool {
        &&& forall|k: int| 0 <= k < self.activator_offsets@.len() ==> #[trigger] self.activator_offsets@[k] < self.frame_size
        &&& forall|k: int| 0 <= k < self.inhibitor_offsets@.len() ==> #[trigger] self.inhibitor_offsets@[k] < self.frame_size
    }

    /// What a mutation does with the given draws.  With at least two frames,
    /// a first draw picks one of the available operations: repeat a frame
    /// over up to 8 following frames from a drawn destination; pulse a drawn
    /// activator (zero in the frames around a drawn frame, one in it); or
    /// zero a drawn inhibitor over a drawn window of at least 9 frames (or all
    /// of them when fewer).
    pub open spec fn mutation(&self, bytes: Seq<u8>, draws: Seq<u64>) -> (MutationResult, Seq<u8>) {
        let fs = self.frame_size as int;
        if fs == 0 {
            (MutationResult::Skipped, bytes)
        } else {
            let fc: int = (bytes.len() as int) / fs;
            let ha = self.activator_offsets@.len() > 0;
            let hi = self.inhibitor_offsets@.len() > 0;
            let op_count: int = 1 + (if ha { 1int } else { 0 }) + (if hi { 1int } else { 0 });
            let op: int = ((draws[0] as usize) % (op_count as usize)) as int;
            if fc < 2 {
                (MutationResult::Skipped, bytes)
            } else if op == 0 {
                let src: int = ((draws[1] as usize) % (fc as usize)) as int;
                let dst: int = ((draws[2] as usize) % (fc as usize)) as int;
                let room: int = if fc - dst < 8 { fc - dst } else { 8 };
                let max_run: int = if room < 1 { 1 } else { room };
                let run: int = ((draws[3] as usize) % (max_run as usize)) as int;
                let end: int = if dst + run + 1 < fc { dst + run + 1 } else { fc };
                (
                    MutationResult::Mutated,
                    Seq::new(
                        bytes.len(),
                        |i: int| if dst * fs <= i < end * fs { bytes[src * fs + i % fs] } else { bytes[i] },
                    ),
                )
            } else if op == 1 && ha {
                let off = self.activator_offsets@[((draws[1] as usize) % (self.activator_offsets@.len() as usize)) as int] as int;
                let pulse: int = ((draws[2] as usize) % (fc as usize)) as int;
                let ws: int = if pulse > 0 { pulse - 1 } else { 0 };
                let we: int = if pulse + 1 < fc - 1 { pulse + 1 } else { fc - 1 };
                (
                    MutationResult::Mutated,
                    set_in_frames(bytes, fs, off, ws, we + 1, 0).update(pulse * fs + off, 1),
                )
            } else if hi {
                let off = self.inhibitor_offsets@[((draws[1] as usize) % (self.inhibitor_offsets@.len() as usize)) as int] as int;
                let min_w: int = if 9 < fc { 9 } else { fc };
                let wl: int = min_w + ((draws[2] as usize) % ((fc - min_w + 1) as usize)) as int;
                let ws: int = ((draws[3] as usize) % ((if fc > wl { fc - wl } else { 0 }) + 1) as usize) as int;
                let we: int = if ws + wl < fc { ws + wl } else { fc };
                (MutationResult::Mutated, set_in_frames(bytes, fs, off, ws, we, 0))
            } else {
                (MutationResult::Skipped, bytes)
            }
        }
    }
}

/// Sets byte `off` of frames `[ws, we)` to `v`.
fn set_flag_in_frames(bytes: &mut Vec<u8>, fs: usize, off: usize, ws: usize, we: usize, v: u8)
    requires
        fs > 0,
        off < fs,
        ws <= we,
        we * fs <= old(bytes)@.len(),
    ensures
        final(bytes)@ == set_in_frames(old(bytes)@, fs as int, off as int, ws as int, we as int, v),
{
    let ghost orig = bytes@;
    let blen = bytes.len();
    let mut f = ws;
    assert(set_in_frames(orig, fs as int, off as int, ws as int, ws as int, v) =~= orig);
    while f < we
        invariant
            ws <= f <= we,
            we * fs <= orig.len(),
            blen == orig.len(),
            fs > 0,
            off < fs,
            bytes@ == set_in_frames(orig, fs as int, off as int, ws as int, f as int, v),
        decreases we - f,
    {
        assert(f * fs + fs <= we * fs) by (nonlinear_arith)
            requires f < we;
        assert(ws * fs <= f * fs) by (nonlinear_arith)
            requires ws <= f;
        let p = f * fs + off;
        proof { lemma_frame_pos(f as int, off as int, fs as int); }
        bytes.set(p, v);
        proof {
            assert(f * fs + fs == (f + 1) * fs) by (nonlinear_arith);
            assert forall|i: int| 0 <= i < orig.len() implies #[trigger] bytes@[i] == set_in_frames(
                orig,
                fs as int,
                off as int,
                ws as int,
                f + 1,
                v,
            )[i] by {
                if i % (fs as int) == off && f * fs <= i < f * fs + fs {
                    lemma_in_frame(i, f as int, fs as int);
                }
            }
            assert(f * fs + fs == (f + 1) * fs) by (nonlinear_arith);
        }
        f += 1;
        assert(bytes@ =~= set_in_frames(orig, fs as int, off as int, ws as int, f as int, v));
    }
}

impl FramePatternMutator {
    /// Applies the mutation to `bytes` with the given draws (see `mutation`).
    pub fn mutate(&self, bytes: &mut Vec<u8>, draws: &[u64]) -> (r: MutationResult)
        requires
            self.offsets_fit(),
            draws@.len() >= 4,
            old(bytes)@.len() < usize::MAX,
        ensures
            (r, final(bytes)@) == self.mutation(old(bytes)@, draws@),
    {
        let fs = self.frame_size;
        if fs == 0 {
            return MutationResult::Skipped;
        }
        let blen = bytes.len();
        let fc = blen / fs;
        assert(fc * fs <= blen) by (nonlinear_arith)
            requires fc == blen / fs, fs > 0;
        let ha = self.activator_offsets.len() > 0;
        let hi = self.inhibitor_offsets.len() > 0;
        let op_count: usize = 1 + (if ha { 1 } else { 0 }) + (if hi { 1 } else { 0 });
        let op = (#[verifier::truncate] (draws[0] as usize)) % op_count;
        if fc < 2 {
            return MutationResult::Skipped;
        }
        if op == 0 {
            let src = (#[verifier::truncate] (draws[1] as usize)) % fc;
            let dst = (#[verifier::truncate] (draws[2] as usize)) % fc;
            let room = if fc - dst < 8 { fc - dst } else { 8 };
            let max_run = if room < 1 { 1 } else { room };
            let run = (#[verifier::truncate] (draws[3] as usize)) % max_run;
            let end = if dst + run + 1 < fc { dst + run + 1 } else { fc };
            assert(src * fs + fs <= fc * fs) by (nonlinear_arith)
                requires src < fc;
            let ghost orig = bytes@;
            let srcf = crate::text::copy_of(&bytes.as_slice()[src * fs..src * fs + fs]);
            assert(srcf@ =~= orig.subrange(src * fs, src * fs + fs));
            assert(end * fs <= fc * fs) by (nonlinear_arith)
                requires end <= fc;
            assert(dst * fs <= end * fs) by (nonlinear_arith)
                requires dst <= end;
            let lo = dst * fs;
            let hi_pos = end * fs;
            let mut p = lo;
            assert(Seq::new(orig.len(), |i: int| if lo <= i < lo { orig[src * fs + i % (fs as int)] } else { orig[i] }) =~= orig);
            while p < hi_pos
                invariant
                    lo <= p <= hi_pos,
                    hi_pos <= blen,
                    blen == orig.len(),
                    fs > 0,
                    src * fs + fs <= orig.len(),
                    srcf@.len() == fs,
                    srcf@ == orig.subrange(src * fs, src * fs + fs),
                    bytes@ == Seq::new(orig.len(), |i: int| if lo <= i < p { orig[src * fs + i % (fs as int)] } else { orig[i] }),
                decreases hi_pos - p,
            {
                let j = p % fs;
                bytes.set(p, srcf[j]);
                p += 1;
                assert(bytes@ =~= Seq::new(orig.len(), |i: int| if lo <= i < p { orig[src * fs + i % (fs as int)] } else { orig[i] }));
            }
            return MutationResult::Mutated;
        }
        if op == 1 && ha {
            let na = self.activator_offsets.len();
            let off = self.activator_offsets[(#[verifier::truncate] (draws[1] as usize)) % na];
            let pulse = (#[verifier::truncate] (draws[2] as usize)) % fc;
            let ws = if pulse > 0 { pulse - 1 } else { 0 };
            let we = if pulse + 1 < fc - 1 { pulse + 1 } else { fc - 1 };
            assert((we + 1) * fs <= fc * fs) by (nonlinear_arith)
                requires we + 1 <= fc;
            set_flag_in_frames(bytes, fs, off, ws, we + 1, 0);
            assert(pulse * fs + fs <= fc * fs) by (nonlinear_arith)
                requires pulse < fc;
            bytes.set(pulse * fs + off, 1);
            return MutationResult::Mutated;
        }
        if hi {
            let ni = self.inhibitor_offsets.len();
            let off = self.inhibitor_offsets[(#[verifier::truncate] (draws[1] as usize)) % ni];
            let min_w = if 9 < fc { 9 } else { fc };
            let wl = min_w + (#[verifier::truncate] (draws[2] as usize)) % (fc - min_w + 1);
            let ws = (#[verifier::truncate] (draws[3] as usize)) % ((if fc > wl { fc - wl } else { 0 }) + 1);
            let we = if ws + wl < fc { ws + wl } else { fc };
            assert(we * fs <= fc * fs) by (nonlinear_arith)
                requires we <= fc;
            set_flag_in_frames(bytes, fs, off, ws, we, 0);
            return MutationResult::Mutated;
        }
        MutationResult::Skipped
    }
}

/// The frame-level mutations never change the length of a testcase.
pub proof fn lemma_frame_mutations_keep_length(
    w: AccumulationWindowMutator,
    p: FramePatternMutator,
    bytes: Seq<u8>,
    draws: Seq<u64>,
)
    requires
        p.offsets_fit(),
        p.activator_offsets@.len() <= usize::MAX,
        bytes.len() < usize::MAX,
    ensures
        w.mutation(bytes, draws).1.len() == bytes.len(),
        p.mutation(bytes, draws).1.len() == bytes.len(),
{
    let fs = p.frame_size as int;
    if fs > 0 {
        let fc: int = (bytes.len() as int) / fs;
        let ha = p.activator_offsets@.len() > 0;
        let hi = p.inhibitor_offsets@.len() > 0;
        let op_count: int = 1 + (if ha { 1int } else { 0 }) + (if hi { 1int } else { 0 });
        let op: int = ((draws[0] as usize) % (op_count as usize)) as int;
        if fc >= 2 && op == 1 && ha {
            let off = p.activator_offsets@[((draws[1] as usize) % (p.activator_offsets@.len() as usize)) as int] as int;
            let pulse: int = ((draws[2] as usize) % (fc as usize)) as int;
            let k = ((draws[1] as usize) % (p.activator_offsets@.len() as usize)) as int;
            assert(0 <= k < p.activator_offsets@.len());
            assert(0 <= off < fs);
            assert(fc <= bytes.len()) by (nonlinear_arith)
                requires fc == (bytes.len() as int) / fs, fs > 0;
            assert(0 <= pulse < fc);
            assert(pulse * fs + off < fc * fs) by (nonlinear_arith)
                requires 0 <= off < fs, 0 <= pulse < fc;
            assert(fc * fs <= bytes.len()) by (nonlinear_arith)
                requires fc == (bytes.len() as int) / fs, fs > 0;
            assert(0 <= pulse * fs) by (nonlinear_arith)
                requires 0 <= pulse, 0 < fs;
        }
    }
}

} // verus!
