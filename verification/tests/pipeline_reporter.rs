use std::io::Write;

use pycors::error::Error;
use pycors::extract::{extract_archive, extract_dir_name};
use pycors::pipeline::{
    advance, configure_args, finalize_outcome, info_file_content, run_error, FinalizeReport,
    LinkOutcome, PipelineRun, PipelineStatus, Stage, StageOutcome,
};
use pycors::registry::Registry;
use pycors::reporter::{stage_message, truncate_line, Reporter, ReporterEvent, MAX_LINE_LENGTH};
use pycors::version::Version;

fn ver(ma: u64, mi: u64, pa: u64) -> Version {
    Version::new(ma, mi, pa)
}

#[test]
fn make_failure_stops_the_pipeline() {
    // Extract and Configure succeed, Make exits 2: the run is Failed at Make,
    // MakeInstall and Finalize never run, and the registry gains no record.
    let mut reg = Registry::new();
    let mut run = PipelineRun::start(ver(3, 9, 1), b"/opt/py/3.9.1".to_vec());
    assert!(matches!(run.current_stage(), Some(Stage::Extract)));
    advance(&mut run, &mut reg, StageOutcome::Succeeded);
    assert!(matches!(run.current_stage(), Some(Stage::Configure)));
    advance(&mut run, &mut reg, StageOutcome::Succeeded);
    assert!(matches!(run.current_stage(), Some(Stage::Make)));
    advance(&mut run, &mut reg, StageOutcome::Failed(2, b"gcc: error".to_vec()));
    match &run.status {
        PipelineStatus::Failed(stage, code, tail) => {
            assert!(matches!(stage, Stage::Make));
            assert_eq!(*code, 2);
            assert_eq!(tail.as_slice(), b"gcc: error".as_slice());
        },
        _ => panic!("expected a failed run"),
    }
    assert!(run.current_stage().is_none());
    assert_eq!(reg.list().len(), 0);
}

#[test]
fn full_run_registers_only_after_finalize() {
    let mut reg = Registry::new();
    let mut run = PipelineRun::start(ver(3, 9, 1), b"/opt/py/3.9.1".to_vec());
    for _ in 0..4 {
        assert_eq!(reg.list().len(), 0);
        advance(&mut run, &mut reg, StageOutcome::Succeeded);
    }
    assert!(matches!(run.current_stage(), Some(Stage::Finalize)));
    assert_eq!(reg.list().len(), 0);
    advance(&mut run, &mut reg, StageOutcome::Succeeded);
    assert!(matches!(run.status, PipelineStatus::Completed));
    assert_eq!(reg.list().len(), 1);
    assert_eq!(reg.list()[0].install_dir.as_slice(), b"/opt/py/3.9.1".as_slice());
}

#[test]
fn finalize_tolerates_missing_source_binaries() {
    // A missing source binary (idle3.9 absent) is a warning, not a failure:
    // the toolchain still completes and registers.
    let report = FinalizeReport {
        marker_written: true,
        package_install_exit: 0,
        link_outcomes: vec![LinkOutcome::Created, LinkOutcome::SourceMissing, LinkOutcome::Created],
    };
    assert!(matches!(finalize_outcome(&report), StageOutcome::Succeeded));
    let mut reg = Registry::new();
    let mut run = PipelineRun::start(ver(3, 9, 1), b"/opt/py/3.9.1".to_vec());
    for _ in 0..4 {
        advance(&mut run, &mut reg, StageOutcome::Succeeded);
    }
    advance(&mut run, &mut reg, finalize_outcome(&report));
    assert!(matches!(run.status, PipelineStatus::Completed));
    assert_eq!(reg.list().len(), 1);
}

#[test]
fn finalize_aborts_on_real_link_errors() {
    let report = FinalizeReport {
        marker_written: true,
        package_install_exit: 0,
        link_outcomes: vec![LinkOutcome::Created, LinkOutcome::OtherError],
    };
    assert!(matches!(finalize_outcome(&report), StageOutcome::Failed(1, _)));
    let report = FinalizeReport {
        marker_written: true,
        package_install_exit: 7,
        link_outcomes: vec![],
    };
    assert!(matches!(finalize_outcome(&report), StageOutcome::Failed(7, _)));
    let report = FinalizeReport {
        marker_written: false,
        package_install_exit: 0,
        link_outcomes: vec![],
    };
    assert!(matches!(finalize_outcome(&report), StageOutcome::Failed(1, _)));
}

#[test]
fn failed_runs_surface_stage_failed() {
    let status = PipelineStatus::Failed(Stage::Configure, 77, b"no cc found".to_vec());
    match run_error(status) {
        Some(Error::StageFailed { stage, exit_code, output_tail }) => {
            assert!(matches!(stage, Stage::Configure));
            assert_eq!(exit_code, 77);
            assert_eq!(output_tail.as_slice(), b"no cc found".as_slice());
        },
        _ => panic!("expected StageFailed"),
    }
    assert!(run_error(PipelineStatus::Completed).is_none());
}

#[test]
fn reporter_truncates_and_stops_clean() {
    let long = vec![b'x'; 300];
    assert_eq!(truncate_line(&long).len(), MAX_LINE_LENGTH);
    assert_eq!(truncate_line(b"short"), b"short".to_vec());
    let exact = vec![b'y'; MAX_LINE_LENGTH];
    assert_eq!(truncate_line(&exact), exact);
    let over = vec![b'z'; MAX_LINE_LENGTH + 1];
    assert_eq!(truncate_line(&over).as_slice(), &over[..MAX_LINE_LENGTH]);
    let msg = stage_message(b"[4/5] Make", b"compiling");
    assert_eq!(msg.as_slice(), b"[4/5] Make: compiling".as_slice());

    let mut r = Reporter::new(b"[3/5] Configure");
    assert_eq!(r.ticks, 0);
    r.step(ReporterEvent::Message(b"checking cc".to_vec()));
    assert_eq!(r.message.as_slice(), b"checking cc".as_slice());
    assert_eq!(r.ticks, 1);
    r.step(ReporterEvent::Tick);
    assert_eq!(r.ticks, 2);
    r.step(ReporterEvent::Stop);
    assert!(r.stopped);
    // After the stop signal the final line stays intact.
    r.step(ReporterEvent::Message(b"late".to_vec()));
    assert_eq!(r.message.as_slice(), b"checking cc".as_slice());
    assert_eq!(r.ticks, 2);
}

#[test]
fn configure_arguments_carry_the_prefix() {
    let args = configure_args(b"/opt/py/3.9.1");
    assert_eq!(args.len(), 3);
    assert_eq!(args[0].as_slice(), b"--prefix".as_slice());
    assert_eq!(args[1].as_slice(), b"/opt/py/3.9.1".as_slice());
    assert_eq!(args[2].as_slice(), b"--enable-optimizations".as_slice());
}

#[test]
fn info_file_content_is_exact() {
    let c = info_file_content(b"3.9.1", b"0.1.0", b"2020-01-01T00:00:00+00:00");
    assert_eq!(
        c.as_slice(),
        b"Python 3.9.1 installed using pycors version 0.1.0 on 2020-01-01T00:00:00+00:00.\n"
            .as_slice()
    );
}

#[test]
fn extract_reads_a_real_archive() {
    // Build a small .tar.gz in memory and read it back through the library.
    let mut builder = tar::Builder::new(Vec::new());
    let mut header = tar::Header::new_gnu();
    header.set_size(5);
    header.set_mode(0o644);
    header.set_cksum();
    builder
        .append_data(&mut header, "Python-3.9.1/README", b"hello".as_slice())
        .unwrap();
    let tar_bytes = builder.into_inner().unwrap();
    let mut enc = flate2::write::GzEncoder::new(Vec::new(), flate2::Compression::default());
    enc.write_all(&tar_bytes).unwrap();
    let gz = enc.finish().unwrap();

    let entries = extract_archive(&gz).unwrap();
    assert_eq!(entries.len(), 1);
    assert_eq!(entries[0].0.as_slice(), b"Python-3.9.1/README".as_slice());
    assert_eq!(entries[0].1.as_slice(), b"hello".as_slice());
}

#[test]
fn extract_rejects_a_corrupt_archive() {
    match extract_archive(b"this is not a gzip stream") {
        Err(Error::Io(_)) => {},
        _ => panic!("expected Io"),
    }
}

#[test]
fn extract_dir_is_named_for_the_version() {
    assert_eq!(extract_dir_name(&ver(3, 9, 1)).as_slice(), b"Python-3.9.1".as_slice());
    assert_eq!(extract_dir_name(&ver(3, 10, 0)).as_slice(), b"Python-3.10.0".as_slice());
}
