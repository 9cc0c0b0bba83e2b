use vhsichdl::pipeline::PipelineRun;
use vhsichdl::pipeline::StageOutcome;
use vhsichdl::report::format_report;

fn report_with(stdouts: [&[u8]; 3], stderrs: [&[u8]; 3]) -> vhsichdl::pipeline::SimulationReport {
    let mut run = PipelineRun::new("tb.vhd".to_string(), "tb".to_string(), None);
    for i in 0..3 {
        run.record_stage(stdouts[i].to_vec(), stderrs[i].to_vec(), StageOutcome::Succeeded);
    }
    run.into_report()
}

#[test]
fn transcript_lists_each_stage_once_in_order() {
    let report = report_with([b"OK", b"OK", b"OK"], [b"", b"", b""]);
    let text = format_report(&report);
    assert_eq!(
        text,
        ">>> ghdl -a output:\nOK>>> ghdl -e output:\nOK>>> ghdl -r output:\nOK"
    );
    assert_eq!(text.matches(">>> ghdl -a output:").count(), 1);
    assert_eq!(text.matches(">>> ghdl -e output:").count(), 1);
    assert_eq!(text.matches(">>> ghdl -r output:").count(), 1);
    let a = text.find(">>> ghdl -a output:").unwrap();
    let e = text.find(">>> ghdl -e output:").unwrap();
    let r = text.find(">>> ghdl -r output:").unwrap();
    assert!(a < e && e < r);
}

#[test]
fn stderr_follows_stdout_within_a_stage() {
    let report = report_with([b"out", b"", b""], [b"err", b"", b""]);
    let text = format_report(&report);
    assert!(text.starts_with(">>> ghdl -a output:\nouterr"));
}

#[test]
fn invalid_bytes_are_replaced_not_dropped() {
    let report = report_with([&[0xFF, b'O'], b"", b""], [b"", b"", b""]);
    let text = format_report(&report);
    assert!(text.contains('\u{FFFD}'));
    assert!(text.contains("\u{FFFD}O"));
}

#[test]
fn empty_streams_leave_only_headers() {
    let report = report_with([b"", b"", b""], [b"", b"", b""]);
    let text = format_report(&report);
    assert_eq!(
        text,
        ">>> ghdl -a output:\n>>> ghdl -e output:\n>>> ghdl -r output:\n"
    );
}
