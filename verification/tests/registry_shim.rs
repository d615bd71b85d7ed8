use pycors::alias::{alias_templates, identify, link_plan, source_name_of, VersionHint};
use pycors::error::Error;
use pycors::registry::{binary_path, Registry};
use pycors::requirement::Requirement;
use pycors::resolver::{resolve, ChainEntry, ReqSource};
use pycors::shim::dispatch;
use pycors::version::Version;

fn ver(ma: u64, mi: u64, pa: u64) -> Version {
    Version::new(ma, mi, pa)
}

fn entry(dir: &str, lines: Option<&[&str]>) -> ChainEntry {
    ChainEntry {
        dir: dir.as_bytes().to_vec(),
        file_lines: lines.map(|ls| ls.iter().map(|l| l.as_bytes().to_vec()).collect()),
    }
}

#[test]
fn resolver_nearest_declaration_wins() {
    // /a/.python-version holds "3.9"; /a/b has no file; resolving from /a/b/c
    // takes the requirement from /a's file.
    let chain = vec![
        entry("/a/b/c", None),
        entry("/a/b", None),
        entry("/a", Some(&["", "3.9", "ignored"])),
    ];
    let (q, src) = resolve(&chain, &None).unwrap();
    assert_eq!(q.major, 3);
    assert_eq!(q.minor, Some(9));
    match src {
        ReqSource::DeclFile(p) => assert_eq!(p.as_slice(), b"/a/.python-version".as_slice()),
        ReqSource::DefaultSetting => panic!("wrong source"),
    }
}

#[test]
fn resolver_no_file_no_default_fails() {
    let chain = vec![entry("/a", None)];
    match resolve(&chain, &None) {
        Err(Error::NoRequirementFound) => {},
        _ => panic!("expected NoRequirementFound"),
    }
}

#[test]
fn resolver_falls_back_to_default() {
    let chain = vec![entry("/a", None)];
    let (q, src) = resolve(&chain, &Some(b"^3.8".to_vec())).unwrap();
    assert_eq!(q.major, 3);
    assert!(matches!(src, ReqSource::DefaultSetting));
}

#[test]
fn resolver_malformed_line_is_an_error() {
    let chain = vec![entry("/a", Some(&["not-a-requirement"]))];
    match resolve(&chain, &None) {
        Err(Error::InvalidRequirement(t)) => {
            assert_eq!(t.as_slice(), b"not-a-requirement".as_slice())
        },
        _ => panic!("expected InvalidRequirement"),
    }
}

#[test]
fn register_twice_leaves_one_record() {
    let mut reg = Registry::new();
    reg.register(&ver(3, 9, 1), b"/opt/py/3.9.1");
    reg.register(&ver(3, 9, 1), b"/opt/py/3.9.1");
    assert_eq!(reg.list().len(), 1);
    assert_eq!(reg.list()[0].install_dir.as_slice(), b"/opt/py/3.9.1".as_slice());
    assert!(reg.list()[0].installed_by_self);
    reg.register(&ver(3, 8, 0), b"/opt/py/3.8.0");
    assert_eq!(reg.list().len(), 2);
}

#[test]
fn find_returns_best_match() {
    let mut reg = Registry::new();
    reg.register(&ver(3, 8, 0), b"/opt/py/3.8.0");
    reg.register(&ver(3, 8, 6), b"/opt/py/3.8.6");
    reg.register(&ver(3, 9, 1), b"/opt/py/3.9.1");
    let q = Requirement::parse(b"^3.8").unwrap();
    let rec = reg.find(&q).unwrap();
    assert_eq!((rec.version.major, rec.version.minor, rec.version.patch), (3, 8, 6));
    let none = Requirement::parse(b"^2.7").unwrap();
    assert!(reg.find(&none).is_none());
}

#[test]
fn alias_round_trip_concrete() {
    let v = ver(3, 9, 1);
    let templates = alias_templates();
    let python = templates
        .iter()
        .find(|t| t.prefix.as_slice() == b"python" && t.suffix.is_empty())
        .unwrap();
    let src = source_name_of(python, &v);
    assert_eq!(src.as_slice(), b"python3.9".as_slice());
    let sn = identify(src.as_slice()).unwrap();
    assert_eq!(sn.command.as_slice(), b"python".as_slice());
    assert!(matches!(sn.hint, VersionHint::MajorMinor(3, 9)));
    let sn = identify(b"python3").unwrap();
    assert_eq!(sn.command.as_slice(), b"python".as_slice());
    assert!(matches!(sn.hint, VersionHint::Major(3)));
    let sn = identify(b"easy_install").unwrap();
    assert_eq!(sn.command.as_slice(), b"easy_install".as_slice());
    assert!(matches!(sn.hint, VersionHint::Bare));
}

#[test]
fn alias_round_trip_dash_and_mid_marker_templates() {
    // the dash stays in the source name and leaves the decoded links
    let sn = identify(b"easy_install-3.9").unwrap();
    assert_eq!(sn.command.as_slice(), b"easy_install".as_slice());
    assert!(matches!(sn.hint, VersionHint::MajorMinor(3, 9)));
    let sn = identify(b"easy_install3").unwrap();
    assert_eq!(sn.command.as_slice(), b"easy_install".as_slice());
    assert!(matches!(sn.hint, VersionHint::Major(3)));
    let sn = identify(b"pyvenv-3.9").unwrap();
    assert_eq!(sn.command.as_slice(), b"pyvenv".as_slice());
    assert!(matches!(sn.hint, VersionHint::MajorMinor(3, 9)));
    // templates whose marker sits mid-name decode too
    let sn = identify(b"python3.9m").unwrap();
    assert_eq!(sn.command.as_slice(), b"pythonm".as_slice());
    assert!(matches!(sn.hint, VersionHint::MajorMinor(3, 9)));
    let sn = identify(b"python3.9m-config").unwrap();
    assert_eq!(sn.command.as_slice(), b"pythonm-config".as_slice());
    assert!(matches!(sn.hint, VersionHint::MajorMinor(3, 9)));
    let sn = identify(b"pythonm-config").unwrap();
    assert_eq!(sn.command.as_slice(), b"pythonm-config".as_slice());
    assert!(matches!(sn.hint, VersionHint::Bare));
}

#[test]
fn identify_rejects_unknown_stems() {
    for bad in [b"ruby".as_slice(), b"python3.9.1", b"python.", b"3.9"] {
        match identify(bad) {
            Err(Error::UnknownShimTarget(n)) => assert_eq!(n.as_slice(), bad),
            _ => panic!("unknown shim name accepted"),
        }
    }
}

#[test]
fn link_plan_builds_both_links_per_command() {
    let plan = link_plan(&ver(3, 9, 1));
    assert_eq!(plan.len(), 8);
    let python = plan.iter().find(|l| l.bare.as_slice() == b"python").unwrap();
    assert_eq!(python.src.as_slice(), b"python3.9".as_slice());
    assert_eq!(python.major.as_slice(), b"python3".as_slice());
    let idle = plan.iter().find(|l| l.bare.as_slice() == b"idle").unwrap();
    assert_eq!(idle.src.as_slice(), b"idle3.9".as_slice());
    // the dash is kept in the source and dropped from the link names
    let ei = plan.iter().find(|l| l.bare.as_slice() == b"easy_install").unwrap();
    assert_eq!(ei.src.as_slice(), b"easy_install-3.9".as_slice());
    assert_eq!(ei.major.as_slice(), b"easy_install3".as_slice());
    let pv = plan.iter().find(|l| l.bare.as_slice() == b"pyvenv").unwrap();
    assert_eq!(pv.src.as_slice(), b"pyvenv-3.9".as_slice());
    // the mid-marker templates keep their tail after the digits
    let mc = plan.iter().find(|l| l.bare.as_slice() == b"pythonm-config").unwrap();
    assert_eq!(mc.src.as_slice(), b"python3.9m-config".as_slice());
    assert_eq!(mc.major.as_slice(), b"python3m-config".as_slice());
}

#[test]
fn binary_path_checks_the_record() {
    let mut reg = Registry::new();
    reg.register(&ver(3, 8, 6), b"/opt/py/3.8.6");
    let q = Requirement::parse(b"^3.8").unwrap();
    let rec = reg.find(&q).unwrap();
    let p = binary_path(rec, b"python3").unwrap();
    assert_eq!(p.as_slice(), b"/opt/py/3.8.6/bin/python3".as_slice());
    match binary_path(rec, b"ruby") {
        Err(Error::BinaryMissing(n)) => assert_eq!(n.as_slice(), b"ruby".as_slice()),
        _ => panic!("expected BinaryMissing"),
    }
}

#[test]
fn shim_end_to_end_dispatch() {
    // An installed set {3.8.0, 3.8.6, 3.9.1}, a directory whose nearest
    // declaration is "^3.8", a shim invoked as python3: the plan execs the
    // 3.8.6 toolchain's python3 with the arguments unchanged.
    let mut reg = Registry::new();
    reg.register(&ver(3, 8, 0), b"/opt/py/3.8.0");
    reg.register(&ver(3, 8, 6), b"/opt/py/3.8.6");
    reg.register(&ver(3, 9, 1), b"/opt/py/3.9.1");
    let chain = vec![entry("/home/me/proj", Some(&["^3.8"]))];
    let args = vec![b"-c".to_vec(), b"print(1)".to_vec()];
    let plan = dispatch(b"/home/me/.shims/python3", &args, &chain, &None, &reg).unwrap();
    assert_eq!(plan.binary_path.as_slice(), b"/opt/py/3.8.6/bin/python3".as_slice());
    assert_eq!(plan.args, args);
}

#[test]
fn shim_errors_are_fatal_and_precise() {
    let reg = Registry::new();
    let chain = vec![entry("/p", Some(&["^3.8"]))];
    let args: Vec<Vec<u8>> = Vec::new();
    match dispatch(b"ruby", &args, &chain, &None, &reg) {
        Err(Error::UnknownShimTarget(n)) => assert_eq!(n.as_slice(), b"ruby".as_slice()),
        _ => panic!("expected UnknownShimTarget"),
    }
    match dispatch(b"python3", &args, &chain, &None, &reg) {
        Err(Error::ToolchainNotInstalled(q)) => assert_eq!(q.major, 3),
        _ => panic!("expected ToolchainNotInstalled"),
    }
    let empty_chain: Vec<ChainEntry> = Vec::new();
    match dispatch(b"python3", &args, &empty_chain, &None, &reg) {
        Err(Error::NoRequirementFound) => {},
        _ => panic!("expected NoRequirementFound"),
    }
    let mut reg = Registry::new();
    reg.register(&ver(3, 8, 6), b"/opt/py/3.8.6");
    match dispatch(b"python3.7", &args, &chain, &None, &reg) {
        Err(Error::BinaryMissing(n)) => assert_eq!(n.as_slice(), b"python3.7".as_slice()),
        _ => panic!("expected BinaryMissing"),
    }
}
