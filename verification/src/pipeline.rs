//! The install pipeline: a strictly sequential five-stage state machine,
//! `Extract -> Configure -> Make -> MakeInstall -> Finalize`. The driver
//! performs a stage's external work and hands the outcome to `advance`; a
//! non-zero exit makes the run `Failed` and nothing advances it further. The
//! toolchain is registered only when Finalize succeeds — never half-aliased.

use vstd::prelude::*;

use crate::error::Error;
use crate::registry::{spec_fresh_record, spec_register, RecordV, Registry};
use crate::version::{Version, VersionV};

verus! {

/// One sequential phase of the install pipeline.
#[derive(Clone, Copy, PartialEq, Eq, Structural, Debug)]
pub enum Stage {
    Extract,
    Configure,
    Make,
    MakeInstall,
    Finalize,
}

/// The stage after a successful one; Finalize completes the run instead.
pub open spec fn next_stage(s: Stage) -> Stage {
    match s {
        Stage::Extract => Stage::Configure,
        Stage::Configure => Stage::Make,
        Stage::Make => Stage::MakeInstall,
        Stage::MakeInstall => Stage::Finalize,
        Stage::Finalize => Stage::Finalize,
    }
}

/// How one stage's external work ended: cleanly, or with an exit code and
/// the last captured output lines.
pub enum StageOutcome {
    Succeeded,
    Failed(i32, Vec<u8>),
}

#[verifier::ext_equal]
pub ghost enum OutcomeV {
    Succeeded,
    Failed(i32, Seq<u8>),
}

impl View for StageOutcome {
    type V = OutcomeV;

    open spec fn view(&self) -> OutcomeV {
        match self {
            StageOutcome::Succeeded => OutcomeV::Succeeded,
            StageOutcome::Failed(c, t) => OutcomeV::Failed(*c, t@),
        }
    }
}

/// Where a run stands: at a stage, completed, or failed at a stage with the
/// exit code and output tail that `StageFailed` reports.
pub enum PipelineStatus {
    Running(Stage),
    Completed,
    Failed(Stage, i32, Vec<u8>),
}

#[verifier::ext_equal]
pub ghost enum StatusV {
    Running(Stage),
    Completed,
    Failed(Stage, i32, Seq<u8>),
}

impl View for PipelineStatus {
    type V = StatusV;

    open spec fn view(&self) -> StatusV {
        match self {
            PipelineStatus::Running(s) => StatusV::Running(*s),
            PipelineStatus::Completed => StatusV::Completed,
            PipelineStatus::Failed(s, c, t) => StatusV::Failed(*s, *c, t@),
        }
    }
}

/// One installation in flight: the version being built, where it installs,
/// and where the run stands.
pub struct PipelineRun {
    pub version: Version,
    pub install_dir: Vec<u8>,
    pub status: PipelineStatus,
}

#[verifier::ext_equal]
pub ghost struct RunV {
    pub version: VersionV,
    pub install_dir: Seq<u8>,
    pub status: StatusV,
}

impl View for PipelineRun {
    type V = RunV;

    open spec fn view(&self) -> RunV {
        RunV { version: self.version@, install_dir: self.install_dir@, status: self.status@ }
    }
}

/// What one outcome does to a run and the registry: success advances to the
/// next stage — from Finalize it completes the run and registers the
/// toolchain; failure ends the run at the current stage; a finished run
/// ignores events and never touches the registry.
pub open spec fn spec_advance(run: RunV, reg: Seq<RecordV>, ev: OutcomeV) -> (RunV, Seq<RecordV>) {
    match run.status {
        StatusV::Running(st) => match ev {
            OutcomeV::Succeeded => if st is Finalize {
                (
                    RunV { status: StatusV::Completed, ..run },
                    spec_register(
                        reg,
                        spec_fresh_record(
                            run.version,
                            run.version.major as nat,
                            run.version.minor as nat,
                            run.install_dir,
                        ),
                    ),
                )
            } else {
                (RunV { status: StatusV::Running(next_stage(st)), ..run }, reg)
            },
            OutcomeV::Failed(c, tail) => (RunV { status: StatusV::Failed(st, c, tail), ..run }, reg),
        },
        _ => (run, reg),
    }
}

/// A whole run: fold the outcomes, in order, over `spec_advance`.
pub open spec fn spec_run_steps(run: RunV, reg: Seq<RecordV>, evs: Seq<OutcomeV>) -> (
    RunV,
    Seq<RecordV>,
)
    decreases evs.len(),
{
    if evs.len() == 0 {
        (run, reg)
    } else {
        let stepped = spec_advance(run, reg, evs[0]);
        spec_run_steps(stepped.0, stepped.1, evs.drop_first())
    }
}

/// A run that is no longer at a stage never changes again, and never touches
/// the registry.
pub proof fn lemma_finished_run_absorbs(run: RunV, reg: Seq<RecordV>, evs: Seq<OutcomeV>)
    requires
        !(run.status is Running),
    ensures
        spec_run_steps(run, reg, evs) == (run, reg),
    decreases evs.len(),
{
    if evs.len() > 0 {
        lemma_finished_run_absorbs(run, reg, evs.drop_first());
    }
}

/// If Make's external process exits non-zero, the run ends failed at Make —
/// so MakeInstall and Finalize never run — and the registry is exactly what
/// it was, whatever events follow.
pub proof fn lemma_make_failure_blocks_registration(
    run: RunV,
    reg: Seq<RecordV>,
    evs: Seq<OutcomeV>,
    c: i32,
    tail: Seq<u8>,
)
    requires
        run.status == StatusV::Running(Stage::Extract),
        evs.len() >= 3,
        evs[0] is Succeeded,
        evs[1] is Succeeded,
        evs[2] == OutcomeV::Failed(c, tail),
    ensures
        spec_run_steps(run, reg, evs).0.status == StatusV::Failed(Stage::Make, c, tail),
        spec_run_steps(run, reg, evs).1 == reg,
{
    let evs1 = evs.drop_first();
    let evs2 = evs1.drop_first();
    let evs3 = evs2.drop_first();
    assert(evs1[0] == evs[1] && evs1.len() == evs.len() - 1);
    assert(evs2[0] == evs[2] && evs2.len() == evs.len() - 2);
    let s1 = spec_advance(run, reg, evs[0]);
    assert(s1.0.status == StatusV::Running(Stage::Configure) && s1.1 == reg);
    assert(spec_run_steps(run, reg, evs) == spec_run_steps(s1.0, s1.1, evs1));
    let s2 = spec_advance(s1.0, reg, evs1[0]);
    assert(s2.0.status == StatusV::Running(Stage::Make) && s2.1 == reg);
    assert(spec_run_steps(s1.0, reg, evs1) == spec_run_steps(s2.0, s2.1, evs2));
    let s3 = spec_advance(s2.0, reg, evs2[0]);
    assert(s3.0.status == StatusV::Failed(Stage::Make, c, tail) && s3.1 == reg);
    assert(spec_run_steps(s2.0, reg, evs2) == spec_run_steps(s3.0, s3.1, evs3));
    lemma_finished_run_absorbs(s3.0, reg, evs3);
}

impl PipelineRun {
    /// Start a run: a fresh working state at Extract. Retrying after a
    /// failure starts a new run here, never resumes one.
    pub fn start(version: Version, install_dir: Vec<u8>) -> (r: PipelineRun)
        ensures
            r@.version == version@,
            r@.install_dir == install_dir@,
            r@.status == StatusV::Running(Stage::Extract),
    {
        PipelineRun { version, install_dir, status: PipelineStatus::Running(Stage::Extract) }
    }

    /// The stage whose external work the driver must perform next, if the
    /// run is still going.
    pub fn current_stage(&self) -> (r: Option<Stage>)
        ensures
            match r {
                Some(s) => self@.status == StatusV::Running(s),
                None => !(self@.status is Running),
            },
    {
        match &self.status {
            PipelineStatus::Running(s) => Some(*s),
            _ => None,
        }
    }
}

/// Feed one stage outcome to a running pipeline. Exactly `spec_advance`:
/// the registry gains the new toolchain's record only on Finalize success.
pub fn advance(run: &mut PipelineRun, registry: &mut Registry, outcome: StageOutcome)
    requires
        old(run)@.status is Running,
        old(registry).wf(),
    ensures
        final(run)@ == spec_advance(old(run)@, old(registry)@, outcome@).0,
        final(registry)@ == spec_advance(old(run)@, old(registry)@, outcome@).1,
        final(registry).wf(),
{
    let stage = match &run.status {
        PipelineStatus::Running(s) => *s,
        _ => {
            proof {
                assert(false);
            }
            Stage::Extract
        },
    };
    match outcome {
        StageOutcome::Succeeded => {
            match stage {
                Stage::Extract => {
                    run.status = PipelineStatus::Running(Stage::Configure);
                },
                Stage::Configure => {
                    run.status = PipelineStatus::Running(Stage::Make);
                },
                Stage::Make => {
                    run.status = PipelineStatus::Running(Stage::MakeInstall);
                },
                Stage::MakeInstall => {
                    run.status = PipelineStatus::Running(Stage::Finalize);
                },
                Stage::Finalize => {
                    registry.register(&run.version, run.install_dir.as_slice());
                    run.status = PipelineStatus::Completed;
                },
            }
        },
        StageOutcome::Failed(code, tail) => {
            run.status = PipelineStatus::Failed(stage, code, tail);
        },
    }
}

/// How one of Finalize's alias hard links went: created, skipped because the
/// source binary does not exist (a warning, not a failure), or an
/// unclassified filesystem error.
#[derive(Clone, Copy, PartialEq, Eq, Structural, Debug)]
pub enum LinkOutcome {
    Created,
    SourceMissing,
    OtherError,
}

/// What the driver observed while finalizing: whether the provenance marker
/// was written, the package installer's exit code, and each link's outcome.
pub struct FinalizeReport {
    pub marker_written: bool,
    pub package_install_exit: i32,
    pub link_outcomes: Vec<LinkOutcome>,
}

/// Finalize succeeds exactly when the marker was written, the package
/// installer exited zero, and no link hit a real filesystem error — a
/// missing source binary alone never fails it.
pub open spec fn spec_finalize_ok(marker: bool, pkg_exit: i32, links: Seq<LinkOutcome>) -> bool {
    marker && pkg_exit == 0 && forall|i: int|
        0 <= i < links.len() ==> (#[trigger] links[i]) != LinkOutcome::OtherError
}

/// Decide Finalize's outcome from the driver's report.
pub fn finalize_outcome(report: &FinalizeReport) -> (r: StageOutcome)
    ensures
        spec_finalize_ok(
            report.marker_written,
            report.package_install_exit,
            report.link_outcomes@,
        ) <==> r is Succeeded,
        !spec_finalize_ok(
            report.marker_written,
            report.package_install_exit,
            report.link_outcomes@,
        ) ==> match r {
            StageOutcome::Failed(c, t) => t@.len() == 0 && c == (if !report.marker_written {
                1int
            } else if report.package_install_exit != 0 {
                report.package_install_exit as int
            } else {
                1int
            }),
            StageOutcome::Succeeded => false,
        },
{
    if !report.marker_written {
        return StageOutcome::Failed(1, Vec::new());
    }
    if report.package_install_exit != 0 {
        return StageOutcome::Failed(report.package_install_exit, Vec::new());
    }
    let n = report.link_outcomes.len();
    let mut i: usize = 0;
    while i < n
        invariant
            i <= n == report.link_outcomes@.len(),
            report.marker_written,
            report.package_install_exit == 0,
            forall|j: int|
                0 <= j < i ==> (#[trigger] report.link_outcomes@[j]) != LinkOutcome::OtherError,
        decreases n - i,
    {
        match report.link_outcomes[i] {
            LinkOutcome::OtherError => {
                assert(report.link_outcomes@[i as int] == LinkOutcome::OtherError);
                return StageOutcome::Failed(1, Vec::new());
            },
            _ => {},
        }
        i += 1;
    }
    assert(spec_finalize_ok(
        report.marker_written,
        report.package_install_exit,
        report.link_outcomes@,
    ));
    StageOutcome::Succeeded
}


/// `./configure`'s arguments: the install prefix and the optimization flag.
pub open spec fn spec_configure_args(install_dir: Seq<u8>) -> Seq<Seq<u8>> {
    seq![
        seq![45u8, 45u8, 112u8, 114u8, 101u8, 102u8, 105u8, 120u8],
        install_dir,
        seq![
            45u8, 45u8, 101u8, 110u8, 97u8, 98u8, 108u8, 101u8, 45u8, 111u8, 112u8, 116u8, 105u8,
            109u8, 105u8, 122u8, 97u8, 116u8, 105u8, 111u8, 110u8, 115u8,
        ],
    ]
}

/// Build the Configure stage's argument list for an install prefix.
pub fn configure_args(install_dir: &[u8]) -> (r: Vec<Vec<u8>>)
    ensures
        r.deep_view() == spec_configure_args(install_dir@),
{
    let mut a0: Vec<u8> = Vec::new();
    a0.push(45u8);
    a0.push(45u8);
    a0.push(112u8);
    a0.push(114u8);
    a0.push(101u8);
    a0.push(102u8);
    a0.push(105u8);
    a0.push(120u8);
    assert(a0@ =~= spec_configure_args(install_dir@)[0]);
    let mut a2: Vec<u8> = Vec::new();
    a2.push(45u8);
    a2.push(45u8);
    a2.push(101u8);
    a2.push(110u8);
    a2.push(97u8);
    a2.push(98u8);
    a2.push(108u8);
    a2.push(101u8);
    a2.push(45u8);
    a2.push(111u8);
    a2.push(112u8);
    a2.push(116u8);
    a2.push(105u8);
    a2.push(109u8);
    a2.push(105u8);
    a2.push(122u8);
    a2.push(97u8);
    a2.push(116u8);
    a2.push(105u8);
    a2.push(111u8);
    a2.push(110u8);
    a2.push(115u8);
    assert(a2@ =~= spec_configure_args(install_dir@)[2]);
    let mut r: Vec<Vec<u8>> = Vec::new();
    r.push(a0);
    r.push(crate::digits::copy_bytes(install_dir));
    r.push(a2);
    proof {
        crate::digits::lemma_deep_view_names(r);
        assert(r.deep_view() =~= spec_configure_args(install_dir@));
    }
    r
}

/// The provenance marker Finalize writes into the install directory:
/// `Python <version> installed using pycors version <manager> on <time>.`
/// and a newline; the timestamp comes from the caller's clock.
pub fn info_file_content(version_name: &[u8], manager_version: &[u8], timestamp: &[u8]) -> (r: Vec<
    u8,
>)
    ensures
        r@ == seq![80u8, 121u8, 116u8, 104u8, 111u8, 110u8, 32u8] + version_name@ + seq![
            32u8, 105u8, 110u8, 115u8, 116u8, 97u8, 108u8, 108u8, 101u8, 100u8, 32u8, 117u8, 115u8,
            105u8, 110u8, 103u8, 32u8, 112u8, 121u8, 99u8, 111u8, 114u8, 115u8, 32u8, 118u8, 101u8,
            114u8, 115u8, 105u8, 111u8, 110u8, 32u8,
        ] + manager_version@ + seq![32u8, 111u8, 110u8, 32u8] + timestamp@ + seq![46u8, 10u8],
{
    let mut r: Vec<u8> = Vec::new();
    r.push(80u8);
    r.push(121u8);
    r.push(116u8);
    r.push(104u8);
    r.push(111u8);
    r.push(110u8);
    r.push(32u8);
    crate::digits::append_bytes(&mut r, version_name);
    let mut mid: Vec<u8> = Vec::new();
    mid.push(32u8);
    mid.push(105u8);
    mid.push(110u8);
    mid.push(115u8);
    mid.push(116u8);
    mid.push(97u8);
    mid.push(108u8);
    mid.push(108u8);
    mid.push(101u8);
    mid.push(100u8);
    mid.push(32u8);
    mid.push(117u8);
    mid.push(115u8);
    mid.push(105u8);
    mid.push(110u8);
    mid.push(103u8);
    mid.push(32u8);
    mid.push(112u8);
    mid.push(121u8);
    mid.push(99u8);
    mid.push(111u8);
    mid.push(114u8);
    mid.push(115u8);
    mid.push(32u8);
    mid.push(118u8);
    mid.push(101u8);
    mid.push(114u8);
    mid.push(115u8);
    mid.push(105u8);
    mid.push(111u8);
    mid.push(110u8);
    mid.push(32u8);
    crate::digits::append_bytes(&mut r, mid.as_slice());
    crate::digits::append_bytes(&mut r, manager_version);
    r.push(32u8);
    r.push(111u8);
    r.push(110u8);
    r.push(32u8);
    crate::digits::append_bytes(&mut r, timestamp);
    r.push(46u8);
    r.push(10u8);
    proof {
        let want = seq![80u8, 121u8, 116u8, 104u8, 111u8, 110u8, 32u8] + version_name@ + seq![
            32u8, 105u8, 110u8, 115u8, 116u8, 97u8, 108u8, 108u8, 101u8, 100u8, 32u8, 117u8, 115u8,
            105u8, 110u8, 103u8, 32u8, 112u8, 121u8, 99u8, 111u8, 114u8, 115u8, 32u8, 118u8, 101u8,
            114u8, 115u8, 105u8, 111u8, 110u8, 32u8,
        ] + manager_version@ + seq![32u8, 111u8, 110u8, 32u8] + timestamp@ + seq![46u8, 10u8];
        assert(r@ =~= want);
    }
    r
}


/// The error a finished run reports: a failed run surfaces `StageFailed`
/// with its stage, exit code and output tail; a completed run reports
/// nothing. A run still at a stage has nothing to report yet.
pub fn run_error(status: PipelineStatus) -> (r: Option<Error>)
    ensures
        match status {
            PipelineStatus::Failed(s, c, t) => match r {
                Some(e) => match e {
                    Error::StageFailed { stage, exit_code, output_tail } => stage == s && exit_code
                        == c && output_tail@ == t@,
                    _ => false,
                },
                None => false,
            },
            _ => r is None,
        },
{
    match status {
        PipelineStatus::Failed(stage, exit_code, output_tail) => Some(
            Error::StageFailed { stage, exit_code, output_tail },
        ),
        _ => None,
    }
}

} // verus!
