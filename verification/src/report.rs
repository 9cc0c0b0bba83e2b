//! The output aggregator: renders a simulation report as one human-readable
//! transcript. Each stage contributes a fixed header line followed by its
//! captured standard output and standard error, decoded permissively so the
//! transcript never fails to render; nothing is filtered, truncated, or
//! interpreted.

use vstd::prelude::*;

use crate::pipeline::SimulationReport;
use crate::pipeline::StageKind;
use crate::pipeline::StageResult;

verus! {

/// What permissive UTF-8 decoding yields for an arbitrary byte sequence.
pub uninterp spec fn lossy_decode(bytes: Seq<u8>) -> Seq<char>;

/// Relies on `String::from_utf8_lossy`: the decoding is a pure function of
/// the bytes alone, and bytes that are valid UTF-8 — in particular, pure
/// ASCII — come through unchanged, each byte as its character.
#[verifier::external_body]
fn utf8_lossy(bytes: &Vec<u8>) -> (r: String)
    ensures
        r@ == lossy_decode(bytes@),
        (forall|i: int| 0 <= i < bytes@.len() ==> bytes@[i] < 128) ==> (r@.len() == bytes@.len()
            && forall|i: int| 0 <= i < bytes@.len() ==> r@[i] == bytes@[i] as char),
{
    String::from_utf8_lossy(bytes.as_slice()).into_owned()
}

/// The header line that introduces a stage's output in the transcript.
pub open spec fn stage_header(k: StageKind) -> Seq<char> {
    match k {
        StageKind::Analyze => ">>> ghdl -a output:\n"@,
        StageKind::Elaborate => ">>> ghdl -e output:\n"@,
        StageKind::Run => ">>> ghdl -r output:\n"@,
    }
}

/// One stage's slice of the transcript: its header, then its decoded
/// standard output, then its decoded standard error, with no separators
/// beyond the newlines already present in the captured streams.
pub open spec fn stage_transcript(s: StageResult) -> Seq<char> {
    stage_header(s.kind) + lossy_decode(s.stdout@) + lossy_decode(s.stderr@)
}

/// The transcript of a sequence of stage records, in order.
pub open spec fn transcript(rs: Seq<StageResult>) -> Seq<char>
    decreases rs.len(),
{
    if rs.len() == 0 {
        Seq::empty()
    } else {
        transcript(rs.drop_last()) + stage_transcript(rs.last())
    }
}

/// Renders the report as one transcript: for each stage in order, a header
/// line followed by the stage's captured output and error streams.
pub fn format_report(report: &SimulationReport) -> (r: String)
    ensures
        r@ == transcript(report.stages@),
{
    let mut out = String::new();
    let n = report.stages.len();
    let mut i: usize = 0;
    while i < n
        invariant
            0 <= i <= n,
            n == report.stages@.len(),
            out@ == transcript(report.stages@.take(i as int)),
        decreases n - i,
    {
        let s = &report.stages[i];
        let ghost before = out@;
        match s.kind {
            StageKind::Analyze => out.append(">>> ghdl -a output:\n"),
            StageKind::Elaborate => out.append(">>> ghdl -e output:\n"),
            StageKind::Run => out.append(">>> ghdl -r output:\n"),
        }
        let so = utf8_lossy(&s.stdout);
        out.append(so.as_str());
        let se = utf8_lossy(&s.stderr);
        out.append(se.as_str());
        proof {
            let taken = report.stages@.take(i + 1);
            assert(taken.drop_last() =~= report.stages@.take(i as int));
            assert(taken.last() == report.stages@[i as int]);
            assert(out@ =~= transcript(taken));
        }
        i += 1;
    }
    proof {
        assert(report.stages@.take(n as int) =~= report.stages@);
    }
    out
}

} // verus!
