//! The simulation pipeline orchestrator: the fixed three-stage schedule
//! (analyze, elaborate, run) against the external toolchain. The orchestrator
//! is a small state machine: it plans the argument list of the next stage and
//! records each stage's captured output, whatever its outcome — no stage is
//! skipped, reordered, or aborted when an earlier one fails. The caller
//! performs the actual process invocations and feeds the outcomes back.

use vstd::prelude::*;

use crate::scan::last_idx;
use crate::scan::lemma_last_idx_at;

verus! {

/// The three pipeline stages, in their fixed, unskippable order.
#[derive(Clone, Copy, PartialEq, Eq, Structural, Debug)]
pub enum StageKind {
    Analyze,
    Elaborate,
    Run,
}

/// How a stage's external invocation ended: the process ran and exited
/// successfully, it ran and exited with a non-zero status, or it could not
/// be launched at all.
#[derive(Clone, Copy, PartialEq, Eq, Structural, Debug)]
pub enum StageOutcome {
    Succeeded,
    NonZeroExit,
    LaunchFailed,
}

/// One stage's record: its kind, the captured output streams, and the
/// execution outcome. Output is captured regardless of the outcome.
pub struct StageResult {
    pub kind: StageKind,
    pub stdout: Vec<u8>,
    pub stderr: Vec<u8>,
    pub outcome: StageOutcome,
}

/// The stage scheduled at position `i` of the pipeline.
pub open spec fn kind_at(i: int) -> StageKind {
    if i == 0 {
        StageKind::Analyze
    } else if i == 1 {
        StageKind::Elaborate
    } else {
        StageKind::Run
    }
}

/// The argument list handed to the external toolchain for stage `i`:
/// analyze takes the full file path, elaborate and run take the bare
/// design-unit name, and run additionally requests a waveform trace when a
/// trace path is supplied. The outcomes of earlier stages play no part.
pub open spec fn stage_args(
    path: Seq<char>,
    unit: Seq<char>,
    vcd: Option<Seq<char>>,
    i: int,
) -> Seq<Seq<char>> {
    if i == 0 {
        seq!["-a"@, path]
    } else if i == 1 {
        seq!["-e"@, unit]
    } else {
        match vcd {
            Some(v) => seq!["-r"@, unit, "-vcd"@, v],
            None => seq!["-r"@, unit],
        }
    }
}

/// The view of an optional string.
pub open spec fn opt_view(o: Option<String>) -> Option<Seq<char>> {
    match o {
        Some(s) => Some(s@),
        None => None,
    }
}

/// A report of one full pipeline execution: exactly the three stages, in
/// their fixed order, whatever their outcomes.
pub struct SimulationReport {
    pub stages: Vec<StageResult>,
}

impl SimulationReport {
    /// The report shape invariant: three stages in schedule order.
    pub open spec fn wf(self) -> bool {
        self.stages@.len() == 3 && forall|i: int|
            0 <= i < 3 ==> #[trigger] self.stages@[i].kind == kind_at(i)
    }
}

/// One pipeline execution in progress: the fixed inputs and the stages
/// recorded so far.
pub struct PipelineRun {
    pub path: String,
    pub unit: String,
    pub vcd: Option<String>,
    pub results: Vec<StageResult>,
}

impl PipelineRun {
    /// Stages recorded so far are the scheduled ones, in order.
    pub open spec fn wf(self) -> bool {
        self.results@.len() <= 3 && forall|i: int|
            0 <= i < self.results@.len() ==> #[trigger] self.results@[i].kind == kind_at(i)
    }

    /// The argument list planned for stage `i` of this run.
    pub open spec fn planned_args(self, i: int) -> Seq<Seq<char>> {
        stage_args(self.path@, self.unit@, opt_view(self.vcd), i)
    }

    /// Starts a pipeline run for the source file at `path`, the design unit
    /// `unit` (derived from the file stem, not from the classifier), and an
    /// optional waveform trace path.
    pub fn new(path: String, unit: String, vcd: Option<String>) -> (r: PipelineRun)
        ensures
            r.wf(),
            r.results@.len() == 0,
            r.path@ == path@,
            r.unit@ == unit@,
            opt_view(r.vcd) == opt_view(vcd),
    {
        PipelineRun { path, unit, vcd, results: Vec::new() }
    }

    /// Number of stages recorded so far.
    pub fn stage_count(&self) -> (n: usize)
        ensures
            n == self.results@.len(),
    {
        self.results.len()
    }

    /// The argument list of the next stage to invoke, or nothing when all
    /// three stages have been recorded. The plan depends only on the fixed
    /// inputs and on how many stages ran — never on their outcomes, so a
    /// failed stage never cancels the following ones.
    pub fn next_command(&self) -> (r: Option<Vec<String>>)
        ensures
            match r {
                Some(args) => self.results@.len() < 3 && args.deep_view() == self.planned_args(
                    self.results@.len() as int,
                ),
                None => self.results@.len() >= 3,
            },
    {
        let k = self.results.len();
        if k >= 3 {
            return None;
        }
        let mut args: Vec<String> = Vec::new();
        if k == 0 {
            args.push(String::from_str("-a"));
            args.push(self.path.clone());
        } else if k == 1 {
            args.push(String::from_str("-e"));
            args.push(self.unit.clone());
        } else {
            args.push(String::from_str("-r"));
            args.push(self.unit.clone());
            match &self.vcd {
                Some(v) => {
                    args.push(String::from_str("-vcd"));
                    args.push(v.clone());
                },
                None => {},
            }
        }
        proof {
            assert(args.deep_view() =~= self.planned_args(self.results@.len() as int));
        }
        Some(args)
    }

    /// Records the captured output and the outcome of the stage just run.
    /// Any outcome is accepted — the pipeline proceeds past failures — and
    /// the fixed inputs and all earlier records are untouched.
    pub fn record_stage(&mut self, stdout: Vec<u8>, stderr: Vec<u8>, outcome: StageOutcome)
        requires
            old(self).wf(),
            old(self).results@.len() < 3,
        ensures
            final(self).wf(),
            final(self).results@.len() == old(self).results@.len() + 1,
            forall|k: int|
                0 <= k < old(self).results@.len() ==> final(self).results@[k] == old(
                    self,
                ).results@[k],
            final(self).results@.last().kind == kind_at(old(self).results@.len() as int),
            final(self).results@.last().stdout@ == stdout@,
            final(self).results@.last().stderr@ == stderr@,
            final(self).results@.last().outcome == outcome,
            final(self).path@ == old(self).path@,
            final(self).unit@ == old(self).unit@,
            opt_view(final(self).vcd) == opt_view(old(self).vcd),
    {
        let k = self.results.len();
        let kind = if k == 0 {
            StageKind::Analyze
        } else if k == 1 {
            StageKind::Elaborate
        } else {
            StageKind::Run
        };
        self.results.push(StageResult { kind, stdout, stderr, outcome });
    }

    /// Closes a finished run into a report of exactly three stages in
    /// schedule order.
    pub fn into_report(self) -> (r: SimulationReport)
        requires
            self.wf(),
            self.results@.len() == 3,
        ensures
            r.wf(),
            r.stages@ == self.results@,
    {
        SimulationReport { stages: self.results }
    }
}

/// Law: the planned command of every stage is a function of the fixed inputs
/// and the stage position alone. Two runs over the same path, unit and trace
/// path plan identical commands whatever stages were recorded and however
/// those stages ended — in particular, a failing analyze stage changes
/// nothing about the elaborate and run invocations that follow.
pub proof fn lemma_schedule_ignores_outcomes(a: PipelineRun, b: PipelineRun)
    requires
        a.path@ == b.path@,
        a.unit@ == b.unit@,
        opt_view(a.vcd) == opt_view(b.vcd),
    ensures
        forall|i: int| #[trigger] a.planned_args(i) == #[trigger] b.planned_args(i),
{
}

/// The file-name part of `p`: the characters after the last path separator.
pub open spec fn file_name_of(p: Seq<char>) -> Seq<char> {
    p.skip(last_idx(p, '/') + 1)
}

/// The stem of the file named by `p`: the file name without its directory
/// and without its last extension. A dot in first position does not count
/// as an extension separator; a path whose file-name part is empty has no
/// stem.
pub open spec fn stem_of(p: Seq<char>) -> Option<Seq<char>> {
    let name = file_name_of(p);
    if name.len() == 0 {
        None
    } else {
        let d = last_idx(name, '.');
        if d <= 0 {
            Some(name)
        } else {
            Some(name.take(d))
        }
    }
}

/// Derives the design-unit name used by the elaborate and run stages: the
/// stem of the source file's path.
pub fn file_stem_of(path: &str) -> (r: Option<String>)
    ensures
        match r {
            Some(s) => stem_of(path@) == Some(s@),
            None => stem_of(path@) is None,
        },
{
    let n = path.unicode_len();
    let mut start: usize = n;
    while start > 0 && path.get_char(start - 1) != '/'
        invariant
            0 <= start <= n,
            n == path@.len(),
            forall|k: int| start <= k < n ==> path@[k] != '/',
        decreases start,
    {
        start -= 1;
    }
    proof {
        if start > 0 {
            lemma_last_idx_at(path@, '/', start as int - 1);
        } else {
            lemma_last_idx_at(path@, '/', -1);
        }
    }
    let ghost name = file_name_of(path@);
    proof {
        assert(name =~= path@.subrange(start as int, n as int));
    }
    if start == n {
        return None;
    }
    let mut k: usize = n;
    let mut has_dot = false;
    let mut dotpos: usize = 0;
    while k > start
        invariant_except_break
            !has_dot,
        invariant
            start <= k <= n,
            n == path@.len(),
            !has_dot ==> forall|q: int| k <= q < n ==> path@[q] != '.',
            has_dot ==> start <= dotpos < n && path@[dotpos as int] == '.' && (forall|q: int|
                dotpos < q < n ==> path@[q] != '.'),
        ensures
            !has_dot ==> k == start,
        decreases k,
    {
        if path.get_char(k - 1) == '.' {
            has_dot = true;
            dotpos = k - 1;
            break;
        }
        k -= 1;
    }
    proof {
        if has_dot {
            assert forall|q: int| dotpos - start < q < name.len() implies name[q] != '.' by {
                assert(path@[start + q] != '.');
            }
            lemma_last_idx_at(name, '.', dotpos as int - start as int);
        } else {
            assert forall|q: int| -1 < q < name.len() implies name[q] != '.' by {
                assert(path@[start + q] != '.');
            }
            lemma_last_idx_at(name, '.', -1);
        }
    }
    if !has_dot || dotpos == start {
        let s = String::from_str(path.substring_char(start, n));
        proof {
            assert(stem_of(path@) == Some(name));
        }
        Some(s)
    } else {
        let s = String::from_str(path.substring_char(start, dotpos));
        proof {
            assert(name.take(dotpos as int - start as int) =~= path@.subrange(
                start as int,
                dotpos as int,
            ));
        }
        Some(s)
    }
}

} // verus!
