use pycors::error::Error;
use pycors::requirement::{best, ReqOp, Requirement};
use pycors::version::{version_lt_exec, version_name, Version};

fn ver(ma: u64, mi: u64, pa: u64) -> Version {
    Version::new(ma, mi, pa)
}

fn pre_ver(ma: u64, mi: u64, pa: u64, tag: &str) -> Version {
    Version { major: ma, minor: mi, patch: pa, pre: Some(tag.as_bytes().to_vec()) }
}

#[test]
fn parse_bare_is_caret() {
    let q = Requirement::parse(b"3.9").unwrap();
    assert!(matches!(q.op, ReqOp::Caret));
    assert_eq!(q.major, 3);
    assert_eq!(q.minor, Some(9));
    assert_eq!(q.patch, None);
    assert!(q.pre.is_none());
}

#[test]
fn parse_operators() {
    assert!(matches!(Requirement::parse(b">=3.5.1").unwrap().op, ReqOp::GreaterEq));
    assert!(matches!(Requirement::parse(b"<=3.5").unwrap().op, ReqOp::LessEq));
    assert!(matches!(Requirement::parse(b">3").unwrap().op, ReqOp::Greater));
    assert!(matches!(Requirement::parse(b"<4").unwrap().op, ReqOp::Less));
    assert!(matches!(Requirement::parse(b"=3.7").unwrap().op, ReqOp::Exact));
    assert!(matches!(Requirement::parse(b"^3.8").unwrap().op, ReqOp::Caret));
    assert!(matches!(Requirement::parse(b"~2.7.1").unwrap().op, ReqOp::Tilde));
}

#[test]
fn parse_full_triple_with_prerelease() {
    let q = Requirement::parse(b"^3.9.1-rc1").unwrap();
    assert_eq!(q.major, 3);
    assert_eq!(q.minor, Some(9));
    assert_eq!(q.patch, Some(1));
    assert_eq!(q.pre.as_deref(), Some(b"rc1".as_slice()));
}

#[test]
fn parse_trims_whitespace() {
    let q = Requirement::parse(b"  3.8 \n").unwrap();
    assert_eq!(q.major, 3);
    assert_eq!(q.minor, Some(8));
}

#[test]
fn parse_rejects_malformed() {
    for bad in [
        b"".as_slice(),
        b"abc",
        b"*",
        b"3.",
        b"3.9.",
        b"3.9.1-",
        b"03.9",
        b"3.9.x",
        b"3.9.1.2",
        b"-3",
    ] {
        match Requirement::parse(bad) {
            Err(Error::InvalidRequirement(t)) => assert_eq!(t.as_slice(), bad),
            _ => panic!("malformed requirement accepted"),
        }
    }
}

#[test]
fn parse_number_bounds() {
    // the largest value that fits is accepted; one past it is not
    let q = Requirement::parse(b"=18446744073709551615").unwrap();
    assert_eq!(q.major, u64::MAX);
    assert!(matches!(
        Requirement::parse(b"=18446744073709551616"),
        Err(Error::InvalidRequirement(_))
    ));
}

#[test]
fn parse_rejects_unsatisfiable() {
    // nothing sorts below the zero version or above the largest one
    for bad in [
        b"<0".as_slice(),
        b"<0.0",
        b"<0.0.0",
        b">18446744073709551615",
        b">18446744073709551615.18446744073709551615.18446744073709551615",
    ] {
        match Requirement::parse(bad) {
            Err(Error::InvalidRequirement(t)) => assert_eq!(t.as_slice(), bad),
            _ => panic!("unsatisfiable requirement accepted"),
        }
    }
    // their satisfiable neighbours stay accepted
    assert!(Requirement::parse(b"<0.1").is_ok());
    assert!(Requirement::parse(b"<0.0.1").is_ok());
    assert!(Requirement::parse(b">0").is_ok());
    assert!(Requirement::parse(b"=0").is_ok());
}

#[test]
fn matches_caret_series() {
    let q = Requirement::parse(b"^3.8").unwrap();
    assert!(q.matches(&ver(3, 8, 0)));
    assert!(q.matches(&ver(3, 8, 6)));
    assert!(!q.matches(&ver(3, 9, 1)));
    assert!(!q.matches(&ver(3, 7, 9)));
    assert!(!q.matches(&ver(4, 0, 0)));
}

#[test]
fn matches_comparison_operators() {
    let ge = Requirement::parse(b">=3.5").unwrap();
    assert!(ge.matches(&ver(3, 5, 0)));
    assert!(ge.matches(&ver(3, 9, 1)));
    assert!(!ge.matches(&ver(3, 4, 9)));
    let lt = Requirement::parse(b"<3.9").unwrap();
    assert!(lt.matches(&ver(3, 8, 6)));
    assert!(!lt.matches(&ver(3, 9, 0)));
    // unwritten components compare positionally, never as zero
    let gt = Requirement::parse(b">3.8").unwrap();
    assert!(!gt.matches(&ver(3, 8, 5)));
    assert!(gt.matches(&ver(3, 9, 0)));
    let le = Requirement::parse(b"<=3.8").unwrap();
    assert!(le.matches(&ver(3, 8, 5)));
    assert!(!le.matches(&ver(3, 9, 0)));
    let ex = Requirement::parse(b"=3.8").unwrap();
    assert!(ex.matches(&ver(3, 8, 5)));
    assert!(!ex.matches(&ver(3, 9, 0)));
}

#[test]
fn matches_prerelease_gate() {
    let plain = Requirement::parse(b"^3.8").unwrap();
    assert!(!plain.matches(&pre_ver(3, 8, 1, "rc1")));
    let named = Requirement::parse(b"=3.8.1-rc1").unwrap();
    assert!(named.matches(&pre_ver(3, 8, 1, "rc1")));
    assert!(!named.matches(&pre_ver(3, 8, 1, "rc2")));
    assert!(!named.matches(&ver(3, 8, 1)));
}

#[test]
fn best_picks_maximum_match() {
    let q = Requirement::parse(b"^3.8").unwrap();
    let candidates = vec![ver(3, 8, 0), ver(3, 8, 6), ver(3, 9, 1)];
    let m = best(&q, &candidates).unwrap();
    assert_eq!((m.major, m.minor, m.patch), (3, 8, 6));
    let wide = Requirement::parse(b">=3.5").unwrap();
    let m = best(&wide, &candidates).unwrap();
    assert_eq!((m.major, m.minor, m.patch), (3, 9, 1));
}

#[test]
fn best_none_when_nothing_matches() {
    let q = Requirement::parse(b"^2.7").unwrap();
    let candidates = vec![ver(3, 8, 0), ver(3, 9, 1)];
    assert!(best(&q, &candidates).is_none());
    assert!(best(&q, &Vec::new()).is_none());
}

#[test]
fn version_order_and_name() {
    assert!(version_lt_exec(&ver(3, 8, 6), &ver(3, 9, 1)));
    assert!(!version_lt_exec(&ver(3, 9, 1), &ver(3, 8, 6)));
    // a prerelease sorts before its release
    assert!(version_lt_exec(&pre_ver(3, 9, 0, "a1"), &ver(3, 9, 0)));
    assert_eq!(version_name(&ver(3, 9, 1)), b"3.9.1".to_vec());
    assert_eq!(version_name(&pre_ver(3, 9, 1, "rc1")), b"3.9.1-rc1".to_vec());
}
