use vhsichdl::pipeline::file_stem_of;
use vhsichdl::pipeline::PipelineRun;
use vhsichdl::pipeline::StageKind;
use vhsichdl::pipeline::StageOutcome;

fn drive(run: &mut PipelineRun, outcomes: [StageOutcome; 3]) -> Vec<Vec<String>> {
    let mut invoked: Vec<Vec<String>> = Vec::new();
    while let Some(args) = run.next_command() {
        if run.stage_count() >= 3 {
            break;
        }
        let outcome = outcomes[run.stage_count()];
        invoked.push(args);
        run.record_stage(b"out".to_vec(), Vec::new(), outcome);
    }
    invoked
}

#[test]
fn pipeline_invokes_exactly_three_commands_in_order() {
    let mut run = PipelineRun::new(
        "design/tb.vhd".to_string(),
        "tb".to_string(),
        Some("wave.vcd".to_string()),
    );
    let invoked = drive(
        &mut run,
        [StageOutcome::Succeeded, StageOutcome::Succeeded, StageOutcome::Succeeded],
    );
    assert_eq!(invoked.len(), 3);
    assert_eq!(invoked[0], vec!["-a".to_string(), "design/tb.vhd".to_string()]);
    assert_eq!(invoked[1], vec!["-e".to_string(), "tb".to_string()]);
    assert_eq!(
        invoked[2],
        vec!["-r".to_string(), "tb".to_string(), "-vcd".to_string(), "wave.vcd".to_string()]
    );
    assert!(run.next_command().is_none());
}

#[test]
fn pipeline_does_not_abort_when_analyze_fails() {
    let mut run = PipelineRun::new(
        "design/tb.vhd".to_string(),
        "tb".to_string(),
        Some("wave.vcd".to_string()),
    );
    let invoked = drive(
        &mut run,
        [StageOutcome::LaunchFailed, StageOutcome::NonZeroExit, StageOutcome::NonZeroExit],
    );
    // The cascading failure is preserved: all three stages still run, with
    // the same arguments as on success.
    assert_eq!(invoked.len(), 3);
    assert_eq!(invoked[0], vec!["-a".to_string(), "design/tb.vhd".to_string()]);
    assert_eq!(invoked[1], vec!["-e".to_string(), "tb".to_string()]);
    assert_eq!(
        invoked[2],
        vec!["-r".to_string(), "tb".to_string(), "-vcd".to_string(), "wave.vcd".to_string()]
    );
    let report = run.into_report();
    assert_eq!(report.stages[0].outcome, StageOutcome::LaunchFailed);
    assert_eq!(report.stages[1].outcome, StageOutcome::NonZeroExit);
}

#[test]
fn run_stage_without_trace_path_omits_the_option() {
    let mut run = PipelineRun::new("tb.vhd".to_string(), "tb".to_string(), None);
    let invoked = drive(
        &mut run,
        [StageOutcome::Succeeded, StageOutcome::Succeeded, StageOutcome::Succeeded],
    );
    assert_eq!(invoked[2], vec!["-r".to_string(), "tb".to_string()]);
}

#[test]
fn report_has_three_stages_in_fixed_order() {
    let mut run = PipelineRun::new("tb.vhd".to_string(), "tb".to_string(), None);
    drive(&mut run, [StageOutcome::Succeeded, StageOutcome::Succeeded, StageOutcome::Succeeded]);
    let report = run.into_report();
    assert_eq!(report.stages.len(), 3);
    assert_eq!(report.stages[0].kind, StageKind::Analyze);
    assert_eq!(report.stages[1].kind, StageKind::Elaborate);
    assert_eq!(report.stages[2].kind, StageKind::Run);
}

#[test]
fn stage_count_tracks_recorded_stages() {
    let mut run = PipelineRun::new("tb.vhd".to_string(), "tb".to_string(), None);
    assert_eq!(run.stage_count(), 0);
    run.record_stage(Vec::new(), Vec::new(), StageOutcome::Succeeded);
    assert_eq!(run.stage_count(), 1);
}

#[test]
fn file_stem_drops_directory_and_extension() {
    assert_eq!(file_stem_of("designs/adder_tb.vhd"), Some("adder_tb".to_string()));
}

#[test]
fn file_stem_of_bare_name() {
    assert_eq!(file_stem_of("counter"), Some("counter".to_string()));
}

#[test]
fn file_stem_keeps_leading_dot() {
    assert_eq!(file_stem_of(".hidden"), Some(".hidden".to_string()));
}

#[test]
fn file_stem_drops_only_last_extension() {
    assert_eq!(file_stem_of("a/b/c.tar.gz"), Some("c.tar".to_string()));
}

#[test]
fn file_stem_of_empty_path_is_none() {
    assert_eq!(file_stem_of(""), None);
}

#[test]
fn file_stem_of_directory_path_is_none() {
    assert_eq!(file_stem_of("designs/"), None);
}
