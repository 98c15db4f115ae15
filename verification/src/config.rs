//! Execution configuration of the fuzzing runtime and the plan of harness
//! calls that one testcase makes.
use vstd::prelude::*;

verus! {

/// How a testcase is fed to the PLC program.
#[derive(Debug, Clone, Copy, PartialEq, Eq, Structural)]
pub enum ExecutionMode {
    /// One frame of input, one scan cycle.
    SingleCycle,
    /// A sequence of frames, one scan cycle per frame.
    ScanSequence,
}

impl Default for ExecutionMode {
    fn default() -> (m: Self)
        ensures
            m == ExecutionMode::SingleCycle,
    {
        ExecutionMode::SingleCycle
    }
}

/// The `[execution]` table of the configuration file.
#[derive(Debug, Clone, Copy)]
pub struct ExecutionConfig {
    pub mode: ExecutionMode,
    pub cycles: usize,
    pub warmup_cycles: usize,
    pub max_cycles: usize,
    pub per_testcase_reset: bool,
    pub timeout_ms: u64,
}

impl Default for ExecutionConfig {
    fn default() -> (c: Self)
        ensures
            c.mode == ExecutionMode::SingleCycle,
            c.cycles == 1,
            c.warmup_cycles == 0,
            c.max_cycles == 64,
            c.per_testcase_reset,
            c.timeout_ms == 5000,
    {
        ExecutionConfig {
            mode: ExecutionMode::SingleCycle,
            cycles: 1,
            warmup_cycles: 0,
            max_cycles: 64,
            per_testcase_reset: true,
            timeout_ms: 5_000,
        }
    }
}

/// The whole configuration file.
#[derive(Debug, Clone, Copy)]
pub struct PrismFuzzConfig {
    pub execution: ExecutionConfig,
}

impl Default for PrismFuzzConfig {
    fn default() -> (c: Self)
        ensures
            c.execution.mode == ExecutionMode::SingleCycle,
            c.execution.cycles == 1,
            c.execution.warmup_cycles == 0,
            c.execution.max_cycles == 64,
            c.execution.per_testcase_reset,
            c.execution.timeout_ms == 5000,
    {
        PrismFuzzConfig { execution: ExecutionConfig::default() }
    }
}

/// A configuration together with the file it came from, if any.
#[derive(Debug, Clone)]
pub struct LoadedConfig {
    pub source: Option<String>,
    pub config: PrismFuzzConfig,
}

impl LoadedConfig {
    /// The source path for log lines, or `<defaults>` when none was read.
    pub fn source_label(&self) -> (s: String)
        ensures
            s@ == match self.source {
                Some(p) => p@,
                None => "<defaults>"@,
            },
    {
        match &self.source {
            Some(p) => p.clone(),
            None => String::from_str("<defaults>"),
        }
    }
}

/// Number of scan cycles per testcase: `cycles` clamped to `1..=max(max_cycles, 1)`.
pub open spec fn effective_cycles_spec(config: PrismFuzzConfig) -> int {
    let c = if config.execution.cycles < 1 { 1 } else { config.execution.cycles as int };
    let m = if config.execution.max_cycles < 1 { 1 } else { config.execution.max_cycles as int };
    if c < m { c } else { m }
}

/// Number of scan cycles per testcase.
pub fn effective_cycles(config: &PrismFuzzConfig) -> (n: usize)
    ensures
        n == effective_cycles_spec(*config),
        1 <= n,
        n <= config.execution.cycles || n == 1,
        n <= config.execution.max_cycles || n == 1,
{
    let c = if config.execution.cycles < 1 { 1 } else { config.execution.cycles };
    let m = if config.execution.max_cycles < 1 { 1 } else { config.execution.max_cycles };
    if c < m { c } else { m }
}

/// Input bytes one testcase needs, saturating at `usize::MAX`.
pub open spec fn required_input_len_spec(config: PrismFuzzConfig, input_size: int) -> int {
    match config.execution.mode {
        ExecutionMode::SingleCycle => input_size,
        ExecutionMode::ScanSequence => {
            let p = input_size * effective_cycles_spec(config);
            if p > usize::MAX { usize::MAX as int } else { p }
        },
    }
}

/// Input bytes one testcase needs: one frame, or one frame per cycle.
pub fn required_input_len(config: &PrismFuzzConfig, input_size: usize) -> (n: usize)
    ensures
        n == required_input_len_spec(*config, input_size as int),
{
    match config.execution.mode {
        ExecutionMode::SingleCycle => input_size,
        ExecutionMode::ScanSequence => match input_size.checked_mul(effective_cycles(config)) {
            Some(p) => p,
            None => usize::MAX,
        },
    }
}

/// Sizes the generated harness reports.
#[derive(Debug, Clone, Copy)]
pub struct HarnessDimensions {
    pub input_size: usize,
    pub state_size: usize,
    pub struct_size: usize,
}

/// One call into the harness while executing a testcase.
#[derive(Debug, Clone, Copy, PartialEq, Eq, Structural)]
pub enum HarnessAction {
    /// `prism_reset`: zero the program instance.
    Reset,
    /// `prism_step`: one scan cycle without touching the inputs.
    Step,
    /// `prism_run` on `data[start..end]`.
    Run { start: usize, end: usize },
}

/// The harness calls for a testcase of `data_len` bytes, or `None` when the
/// data is too short to execute.
pub open spec fn testcase_actions_spec(
    config: PrismFuzzConfig,
    data_len: int,
    frame_size: int,
) -> Option<Seq<HarnessAction>> {
    let reset: Seq<HarnessAction> = if config.execution.per_testcase_reset {
        seq![HarnessAction::Reset]
    } else {
        Seq::empty()
    };
    match config.execution.mode {
        ExecutionMode::SingleCycle => if data_len < frame_size {
            None
        } else {
            Some(reset.push(HarnessAction::Run { start: 0, end: frame_size as usize }))
        },
        ExecutionMode::ScanSequence => {
            let cycles = effective_cycles_spec(config);
            let warmup = if config.execution.warmup_cycles < config.execution.max_cycles {
                config.execution.warmup_cycles as int
            } else {
                config.execution.max_cycles as int
            };
            if data_len < required_input_len_spec(config, frame_size) {
                None
            } else {
                Some(
                    reset + Seq::new(warmup as nat, |i: int| HarnessAction::Step) + Seq::new(
                        cycles as nat,
                        |c: int|
                            HarnessAction::Run {
                                start: (c * frame_size) as usize,
                                end: (c * frame_size + frame_size) as usize,
                            },
                    ),
                )
            }
        },
    }
}

/// The harness calls that execute one testcase: an optional reset, then one
/// run on the first frame (single cycle), or the warm-up steps followed by one
/// run per frame (scan sequence). `None` when `data_len` is too short.
pub fn testcase_actions(config: &PrismFuzzConfig, data_len: usize, frame_size: usize) -> (r: Option<
    Vec<HarnessAction>,
>)
    requires
        data_len <= isize::MAX,
    ensures
        match r {
            Some(v) => testcase_actions_spec(*config, data_len as int, frame_size as int) == Some(
                v@,
            ),
            None => testcase_actions_spec(*config, data_len as int, frame_size as int) is None,
        },
{
    let mut out: Vec<HarnessAction> = Vec::new();
    if config.execution.per_testcase_reset {
        out.push(HarnessAction::Reset);
    }
    let ghost reset = out@;
    match config.execution.mode {
        ExecutionMode::SingleCycle => {
            if data_len < frame_size {
                return None;
            }
            out.push(HarnessAction::Run { start: 0, end: frame_size });
            Some(out)
        },
        ExecutionMode::ScanSequence => {
            let cycles = effective_cycles(config);
            let warmup = if config.execution.warmup_cycles < config.execution.max_cycles {
                config.execution.warmup_cycles
            } else {
                config.execution.max_cycles
            };
            let needed = match frame_size.checked_mul(cycles) {
                Some(p) => p,
                None => usize::MAX,
            };
            if data_len < needed {
                return None;
            }
            assert(frame_size * cycles <= data_len) by (nonlinear_arith)
                requires
                    needed == (if frame_size * cycles > usize::MAX { usize::MAX as int } else { frame_size * cycles }),
                    data_len >= needed, data_len <= isize::MAX;
            let mut w: usize = 0;
            while w < warmup
                invariant
                    w <= warmup,
                    out@ == reset + Seq::new(w as nat, |i: int| HarnessAction::Step),
                decreases warmup - w,
            {
                out.push(HarnessAction::Step);
                w += 1;
                assert(out@ =~= reset + Seq::new(w as nat, |i: int| HarnessAction::Step));
            }
            let ghost pre = out@;
            let mut c: usize = 0;
            while c < cycles
                invariant
                    c <= cycles,
                    frame_size * cycles <= data_len,
                    out@ == pre + Seq::new(
                        c as nat,
                        |k: int|
                            HarnessAction::Run {
                                start: (k * frame_size) as usize,
                                end: (k * frame_size + frame_size) as usize,
                            },
                    ),
                decreases cycles - c,
            {
                assert(c * frame_size + frame_size <= frame_size * cycles) by (nonlinear_arith)
                    requires c < cycles;
                let start = c * frame_size;
                out.push(HarnessAction::Run { start, end: start + frame_size });
                c += 1;
                assert(out@ =~= pre + Seq::new(
                    c as nat,
                    |k: int|
                        HarnessAction::Run {
                            start: (k * frame_size) as usize,
                            end: (k * frame_size + frame_size) as usize,
                        },
                ));
            }
            Some(out)
        },
    }
}

} // verus!
