use icsprism::config::{
    effective_cycles, required_input_len, testcase_actions, ExecutionConfig, ExecutionMode,
    HarnessAction, LoadedConfig, PrismFuzzConfig,
};

fn scan(cycles: usize, warmup: usize, max: usize, reset: bool) -> PrismFuzzConfig {
    PrismFuzzConfig {
        execution: ExecutionConfig {
            mode: ExecutionMode::ScanSequence,
            cycles,
            warmup_cycles: warmup,
            max_cycles: max,
            per_testcase_reset: reset,
            timeout_ms: 5000,
        },
    }
}

#[test]
fn defaults_match_the_documented_values() {
    let c = ExecutionConfig::default();
    assert_eq!(c.mode, ExecutionMode::SingleCycle);
    assert_eq!((c.cycles, c.warmup_cycles, c.max_cycles, c.timeout_ms), (1, 0, 64, 5000));
    assert!(c.per_testcase_reset);
    assert_eq!(PrismFuzzConfig::default().execution.max_cycles, 64);
}

#[test]
fn source_labels() {
    let l = LoadedConfig { source: Some("cfg/prism-fuzz.toml".to_string()), config: PrismFuzzConfig::default() };
    assert_eq!(l.source_label(), "cfg/prism-fuzz.toml");
    let l = LoadedConfig { source: None, config: PrismFuzzConfig::default() };
    assert_eq!(l.source_label(), "<defaults>");
}

#[test]
fn cycles_are_clamped() {
    assert_eq!(effective_cycles(&scan(0, 0, 64, true)), 1);
    assert_eq!(effective_cycles(&scan(10, 0, 64, true)), 10);
    assert_eq!(effective_cycles(&scan(100, 0, 64, true)), 64);
    assert_eq!(effective_cycles(&scan(5, 0, 0, true)), 1);
}

#[test]
fn input_length_per_mode() {
    assert_eq!(required_input_len(&PrismFuzzConfig::default(), 7), 7);
    assert_eq!(required_input_len(&scan(4, 0, 64, true), 7), 28);
    assert_eq!(required_input_len(&scan(4, 0, 64, true), usize::MAX / 2), usize::MAX);
}

#[test]
fn single_cycle_runs_the_first_frame() {
    let cfg = PrismFuzzConfig::default();
    assert_eq!(testcase_actions(&cfg, 3, 4), None);
    assert_eq!(
        testcase_actions(&cfg, 9, 4),
        Some(vec![HarnessAction::Reset, HarnessAction::Run { start: 0, end: 4 }])
    );
}

#[test]
fn scan_sequence_warms_up_then_runs_each_frame() {
    let cfg = scan(3, 2, 64, false);
    assert_eq!(testcase_actions(&cfg, 11, 4), None);
    assert_eq!(
        testcase_actions(&cfg, 12, 4),
        Some(vec![
            HarnessAction::Step,
            HarnessAction::Step,
            HarnessAction::Run { start: 0, end: 4 },
            HarnessAction::Run { start: 4, end: 8 },
            HarnessAction::Run { start: 8, end: 12 },
        ])
    );
    let cfg = scan(1, 9, 2, true);
    assert_eq!(
        testcase_actions(&cfg, 2, 2),
        Some(vec![
            HarnessAction::Reset,
            HarnessAction::Step,
            HarnessAction::Step,
            HarnessAction::Run { start: 0, end: 2 },
        ])
    );
}
