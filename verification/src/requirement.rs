//! Version requirements: one line of text parsed into a predicate over
//! versions, the match test, and selection of the best candidate.
//!
//! Grammar, after trimming ASCII whitespace: an optional operator
//! (`=`, `>`, `>=`, `<`, `<=`, `^`, `~`; none means `^`) followed by
//! `major`, `major.minor` or `major.minor.patch`, optionally `-tag` after a
//! full triple. Numbers are decimal without leading zeros and must fit in a
//! `u64`; a tag is a non-empty run of ASCII letters, digits, `.` and `-`.
//!
//! A caret (and a tilde) requirement accepts versions at or above the written
//! one that stay within the most specific written component's series:
//! `^3` accepts `3.*`, `^3.8` and `^3.8.1` stay below `3.9.0`. The comparison
//! operators read an unwritten component positionally, never as zero: `>3.8`
//! rejects all of `3.8.*` while `<=3.8` admits it. A prerelease version is
//! accepted only when the requirement itself names a prerelease with the
//! same number triple. Text whose predicate no version can satisfy (below
//! the zero version, above the largest) is rejected outright.

use vstd::prelude::*;

use crate::digits::{
    all_digits, bytes_eq, copy_bytes, copy_range, dec_value, is_ascii_digit, parse_u64_digits,
};
use crate::error::Error;
use crate::version::{
    lemma_seq_lt_extend, pre_lt, seq_lt, version_le, version_le_exec, version_lt, version_lt_exec,
    Version, VersionV,
};

verus! {

#[derive(Clone, Copy, PartialEq, Eq, Structural, Debug)]
pub enum ReqOp {
    Exact,
    Greater,
    GreaterEq,
    Less,
    LessEq,
    Caret,
    Tilde,
}

#[derive(Debug)]
pub struct Requirement {
    pub op: ReqOp,
    pub major: u64,
    pub minor: Option<u64>,
    pub patch: Option<u64>,
    pub pre: Option<Vec<u8>>,
}

#[verifier::ext_equal]
pub ghost struct RequirementV {
    pub op: ReqOp,
    pub major: int,
    pub minor: Option<int>,
    pub patch: Option<int>,
    pub pre: Option<Seq<u8>>,
}

impl View for Requirement {
    type V = RequirementV;

    open spec fn view(&self) -> RequirementV {
        RequirementV {
            op: self.op,
            major: self.major as int,
            minor: match self.minor {
                Option::Some(x) => Option::Some(x as int),
                Option::None => Option::None,
            },
            patch: match self.patch {
                Option::Some(x) => Option::Some(x as int),
                Option::None => Option::None,
            },
            pre: match self.pre {
                Option::Some(t) => Option::Some(t@),
                Option::None => Option::None,
            },
        }
    }
}

// ------------------------------------------------------------------
// The grammar, as spec functions.
// ------------------------------------------------------------------

pub open spec fn is_ws(b: u8) -> bool {
    b == 32 || b == 9 || b == 10 || b == 13
}

pub open spec fn trim_spec(s: Seq<u8>) -> Seq<u8>
    decreases s.len(),
{
    if s.len() > 0 && is_ws(s[0]) {
        trim_spec(s.drop_first())
    } else if s.len() > 0 && is_ws(s.last()) {
        trim_spec(s.drop_last())
    } else {
        s
    }
}

/// Split the leading operator off; no operator means caret.
pub open spec fn split_op(t: Seq<u8>) -> (ReqOp, Seq<u8>) {
    if t.len() >= 2 && t[0] == 62 && t[1] == 61 {
        (ReqOp::GreaterEq, t.skip(2))
    } else if t.len() >= 2 && t[0] == 60 && t[1] == 61 {
        (ReqOp::LessEq, t.skip(2))
    } else if t.len() >= 1 && t[0] == 62 {
        (ReqOp::Greater, t.skip(1))
    } else if t.len() >= 1 && t[0] == 60 {
        (ReqOp::Less, t.skip(1))
    } else if t.len() >= 1 && t[0] == 61 {
        (ReqOp::Exact, t.skip(1))
    } else if t.len() >= 1 && t[0] == 94 {
        (ReqOp::Caret, t.skip(1))
    } else if t.len() >= 1 && t[0] == 126 {
        (ReqOp::Tilde, t.skip(1))
    } else {
        (ReqOp::Caret, t)
    }
}

/// First index of `c` in `s`, if any.
pub open spec fn find_byte(s: Seq<u8>, c: u8) -> Option<int>
    decreases s.len(),
{
    if s.len() == 0 {
        Option::None
    } else if s[0] == c {
        Option::Some(0)
    } else {
        match find_byte(s.drop_first(), c) {
            Option::Some(i) => Option::Some(i + 1),
            Option::None => Option::None,
        }
    }
}

pub proof fn lemma_find_byte(s: Seq<u8>, c: u8)
    ensures
        match find_byte(s, c) {
            Option::Some(i) => 0 <= i < s.len() && s[i] == c && forall|j: int|
                0 <= j < i ==> s[j] != c,
            Option::None => forall|j: int| 0 <= j < s.len() ==> s[j] != c,
        },
    decreases s.len(),
{
    if s.len() > 0 && s[0] != c {
        lemma_find_byte(s.drop_first(), c);
        match find_byte(s.drop_first(), c) {
            Option::Some(i) => {
                assert(find_byte(s, c) == Option::Some(i + 1));
                assert(s[i + 1] == s.drop_first()[i]);
                assert forall|j: int| 0 <= j < i + 1 implies s[j] != c by {
                    if j >= 1 {
                        assert(s.drop_first()[j - 1] == s[j]);
                    }
                }
            },
            Option::None => {
                assert forall|j: int| 0 <= j < s.len() implies s[j] != c by {
                    if j >= 1 {
                        assert(s.drop_first()[j - 1] == s[j]);
                    }
                }
            },
        }
    }
}

/// A version number: non-empty digits, no leading zero, fits in a `u64`.
pub open spec fn is_num(t: Seq<u8>) -> bool {
    t.len() >= 1 && all_digits(t) && dec_value(t) <= u64::MAX && (t[0] == 48 ==> t.len() == 1)
}

pub open spec fn is_pre_char(b: u8) -> bool {
    is_ascii_digit(b) || (65 <= b && b <= 90) || (97 <= b && b <= 122) || b == 46 || b == 45
}

pub open spec fn is_pre_tag(t: Seq<u8>) -> bool {
    t.len() >= 1 && forall|i: int| 0 <= i < t.len() ==> is_pre_char(#[trigger] t[i])
}

/// Parse `patch` or `patch-pre` (everything after the second dot).
pub open spec fn spec_parse_tail(op: ReqOp, ma: int, mi: int, t: Seq<u8>) -> Option<RequirementV> {
    match find_byte(t, 45) {
        Option::None => if is_num(t) {
            Option::Some(RequirementV {
                op,
                major: ma,
                minor: Option::Some(mi),
                patch: Option::Some(dec_value(t) as int),
                pre: Option::None,
            })
        } else {
            Option::None
        },
        Option::Some(k) => {
            let patch = t.take(k);
            let pre = t.skip(k + 1);
            if is_num(patch) && is_pre_tag(pre) {
                Option::Some(RequirementV {
                    op,
                    major: ma,
                    minor: Option::Some(mi),
                    patch: Option::Some(dec_value(patch) as int),
                    pre: Option::Some(pre),
                })
            } else {
                Option::None
            }
        },
    }
}

/// Parse `minor`, `minor.patch` or `minor.patch-pre` (after the first dot).
pub open spec fn spec_parse_rest(op: ReqOp, ma: int, t: Seq<u8>) -> Option<RequirementV> {
    match find_byte(t, 46) {
        Option::None => if is_num(t) {
            Option::Some(RequirementV {
                op,
                major: ma,
                minor: Option::Some(dec_value(t) as int),
                patch: Option::None,
                pre: Option::None,
            })
        } else {
            Option::None
        },
        Option::Some(j) => {
            let minor = t.take(j);
            if is_num(minor) {
                spec_parse_tail(op, ma, dec_value(minor) as int, t.skip(j + 1))
            } else {
                Option::None
            }
        },
    }
}

/// Parse the version core (everything after the operator).
pub open spec fn spec_parse_core(op: ReqOp, t: Seq<u8>) -> Option<RequirementV> {
    match find_byte(t, 46) {
        Option::None => if is_num(t) {
            Option::Some(RequirementV {
                op,
                major: dec_value(t) as int,
                minor: Option::None,
                patch: Option::None,
                pre: Option::None,
            })
        } else {
            Option::None
        },
        Option::Some(i) => {
            let major = t.take(i);
            if is_num(major) {
                spec_parse_rest(op, dec_value(major) as int, t.skip(i + 1))
            } else {
                Option::None
            }
        },
    }
}

/// What a requirement line means: `None` exactly when the text is malformed.
pub open spec fn spec_parse_req(s: Seq<u8>) -> Option<RequirementV> {
    let t = trim_spec(s);
    spec_parse_core(split_op(t).0, split_op(t).1)
}

// ------------------------------------------------------------------
// The executable parser.
// ------------------------------------------------------------------

/// Bounds of the text once ASCII whitespace is trimmed from both ends.
fn trim_bounds(s: &[u8]) -> (r: (usize, usize))
    ensures
        r.0 <= r.1 <= s@.len(),
        s@.subrange(r.0 as int, r.1 as int) == trim_spec(s@),
{
    let n = s.len();
    let mut lo: usize = 0;
    assert(s@.skip(0) =~= s@);
    while lo < n && (s[lo] == 32 || s[lo] == 9 || s[lo] == 10 || s[lo] == 13)
        invariant
            lo <= n == s@.len(),
            trim_spec(s@) == trim_spec(s@.skip(lo as int)),
        decreases n - lo,
    {
        assert(s@.skip(lo as int)[0] == s@[lo as int]);
        assert(s@.skip(lo as int).drop_first() =~= s@.skip(lo + 1));
        lo += 1;
    }
    let mut hi: usize = n;
    assert(s@.skip(lo as int) =~= s@.subrange(lo as int, hi as int));
    while hi > lo && (s[hi - 1] == 32 || s[hi - 1] == 9 || s[hi - 1] == 10 || s[hi - 1] == 13)
        invariant
            lo <= hi <= n == s@.len(),
            lo < n ==> !is_ws(s@[lo as int]),
            trim_spec(s@) == trim_spec(s@.subrange(lo as int, hi as int)),
        decreases hi,
    {
        let ghost t = s@.subrange(lo as int, hi as int);
        assert(t.last() == s@[hi - 1]);
        assert(t[0] == s@[lo as int]);
        assert(t.drop_last() =~= s@.subrange(lo as int, hi - 1));
        hi -= 1;
    }
    let ghost t = s@.subrange(lo as int, hi as int);
    proof {
        if t.len() > 0 {
            assert(t[0] == s@[lo as int]);
            assert(t.last() == s@[hi - 1]);
        }
        assert(trim_spec(t) == t);
    }
    (lo, hi)
}

/// First index of `c` within `s[start..end]`.
pub(crate) fn find_byte_in(s: &[u8], start: usize, end: usize, c: u8) -> (r: Option<usize>)
    requires
        start <= end <= s@.len(),
    ensures
        ({
            let t = s@.subrange(start as int, end as int);
            match r {
                Some(i) => start <= i < end && s@[i as int] == c && find_byte(t, c) == Some(
                    i - start,
                ),
                None => find_byte(t, c) is None,
            }
        }),
{
    let ghost t = s@.subrange(start as int, end as int);
    let mut i: usize = start;
    while i < end
        invariant
            start <= i <= end <= s@.len(),
            t == s@.subrange(start as int, end as int),
            forall|j: int| 0 <= j < i - start ==> t[j] != c,
        decreases end - i,
    {
        if s[i] == c {
            assert(t[i - start] == c);
            proof {
                lemma_find_byte(t, c);
                match find_byte(t, c) {
                    Option::Some(k) => {
                        if k < i - start {
                            assert(t[k] != c);
                        } else if k > i - start {
                            assert(t[i - start] != c);
                        }
                    },
                    Option::None => {
                        assert(t[i - start] != c);
                    },
                }
            }
            return Some(i);
        }
        assert(t[i - start] != c);
        i += 1;
    }
    proof {
        lemma_find_byte(t, c);
        match find_byte(t, c) {
            Option::Some(k) => {
                assert(t[k] != c);
            },
            Option::None => {},
        }
    }
    None
}

/// Read a version number: `Some` exactly on a well-formed number.
fn parse_num(s: &[u8], start: usize, end: usize) -> (r: Option<u64>)
    requires
        start <= end <= s@.len(),
    ensures
        ({
            let t = s@.subrange(start as int, end as int);
            match r {
                Some(v) => is_num(t) && v as nat == dec_value(t),
                None => !is_num(t),
            }
        }),
{
    let ghost t = s@.subrange(start as int, end as int);
    if start < end && s[start] == 48 && end - start > 1 {
        assert(t[0] == 48 && t.len() > 1);
        return None;
    }
    parse_u64_digits(s, start, end)
}

fn check_pre_tag(s: &[u8], start: usize, end: usize) -> (r: bool)
    requires
        start <= end <= s@.len(),
    ensures
        r == is_pre_tag(s@.subrange(start as int, end as int)),
{
    let ghost t = s@.subrange(start as int, end as int);
    if start == end {
        return false;
    }
    let mut i: usize = start;
    while i < end
        invariant
            start <= i <= end <= s@.len(),
            t == s@.subrange(start as int, end as int),
            forall|j: int| 0 <= j < i - start ==> is_pre_char(#[trigger] t[j]),
        decreases end - i,
    {
        let b = s[i];
        let ok = (48 <= b && b <= 57) || (65 <= b && b <= 90) || (97 <= b && b <= 122) || b == 46
            || b == 45;
        if !ok {
            assert(t[i - start] == b && !is_pre_char(b));
            return false;
        }
        assert(t[i - start] == b);
        i += 1;
    }
    true
}


/// Parse `patch` or `patch-pre` within `text[start..end]`.
fn parse_tail(text: &[u8], op: ReqOp, ma: u64, mi: u64, start: usize, end: usize) -> (r: Option<
    Requirement,
>)
    requires
        start <= end <= text@.len(),
    ensures
        ({
            let t = text@.subrange(start as int, end as int);
            match r {
                Some(q) => spec_parse_tail(op, ma as int, mi as int, t) == Some(q@),
                None => spec_parse_tail(op, ma as int, mi as int, t) is None,
            }
        }),
{
    let ghost t = text@.subrange(start as int, end as int);
    match find_byte_in(text, start, end, 45) {
        None => {
            match parse_num(text, start, end) {
                Some(pa) => {
                    let q = Requirement { op, major: ma, minor: Some(mi), patch: Some(pa), pre: None };
                    assert(spec_parse_tail(op, ma as int, mi as int, t) == Some(q@));
                    Some(q)
                },
                None => None,
            }
        },
        Some(k) => {
            assert(t.take(k - start) =~= text@.subrange(start as int, k as int));
            assert(t.skip(k - start + 1) =~= text@.subrange(k + 1, end as int));
            let pa = match parse_num(text, start, k) {
                Some(v) => v,
                None => {
                    return None;
                },
            };
            if check_pre_tag(text, k + 1, end) {
                let tag = copy_range(text, k + 1, end);
                let q = Requirement { op, major: ma, minor: Some(mi), patch: Some(pa), pre: Some(tag) };
                assert(spec_parse_tail(op, ma as int, mi as int, t) == Some(q@));
                Some(q)
            } else {
                None
            }
        },
    }
}

/// Parse everything after the first dot within `text[start..end]`.
fn parse_rest(text: &[u8], op: ReqOp, ma: u64, start: usize, end: usize) -> (r: Option<Requirement>)
    requires
        start <= end <= text@.len(),
    ensures
        ({
            let t = text@.subrange(start as int, end as int);
            match r {
                Some(q) => spec_parse_rest(op, ma as int, t) == Some(q@),
                None => spec_parse_rest(op, ma as int, t) is None,
            }
        }),
{
    let ghost t = text@.subrange(start as int, end as int);
    match find_byte_in(text, start, end, 46) {
        None => {
            match parse_num(text, start, end) {
                Some(mi) => {
                    let q = Requirement { op, major: ma, minor: Some(mi), patch: None, pre: None };
                    assert(spec_parse_rest(op, ma as int, t) == Some(q@));
                    Some(q)
                },
                None => None,
            }
        },
        Some(j) => {
            assert(t.take(j - start) =~= text@.subrange(start as int, j as int));
            assert(t.skip(j - start + 1) =~= text@.subrange(j + 1, end as int));
            match parse_num(text, start, j) {
                Some(mi) => parse_tail(text, op, ma, mi, j + 1, end),
                None => None,
            }
        },
    }
}

/// Parse the version core within `text[start..end]`.
fn parse_core(text: &[u8], op: ReqOp, start: usize, end: usize) -> (r: Option<Requirement>)
    requires
        start <= end <= text@.len(),
    ensures
        ({
            let t = text@.subrange(start as int, end as int);
            match r {
                Some(q) => spec_parse_core(op, t) == Some(q@),
                None => spec_parse_core(op, t) is None,
            }
        }),
{
    let ghost t = text@.subrange(start as int, end as int);
    match find_byte_in(text, start, end, 46) {
        None => {
            match parse_num(text, start, end) {
                Some(ma) => {
                    let q = Requirement { op, major: ma, minor: None, patch: None, pre: None };
                    assert(spec_parse_core(op, t) == Some(q@));
                    Some(q)
                },
                None => None,
            }
        },
        Some(i) => {
            assert(t.take(i - start) =~= text@.subrange(start as int, i as int));
            assert(t.skip(i - start + 1) =~= text@.subrange(i + 1, end as int));
            match parse_num(text, start, i) {
                Some(ma) => parse_rest(text, op, ma, i + 1, end),
                None => None,
            }
        },
    }
}

impl Requirement {
    /// Parse one line of requirement text. Returns the parsed requirement
    /// exactly when the text is well-formed and satisfiable, else
    /// `InvalidRequirement` carrying the offending text.
    pub fn parse(text: &[u8]) -> (res: Result<Requirement, Error>)
        ensures
            match res {
                Ok(q) => spec_accepted_req(text@) == Some(q@),
                Err(e) => spec_accepted_req(text@) is None && match e {
                    Error::InvalidRequirement(t) => t@ == text@,
                    _ => false,
                },
            },
    {
        let (lo, hi) = trim_bounds(text);
        let ghost t = trim_spec(text@);
        let two = hi - lo >= 2;
        let (op, lo2): (ReqOp, usize) = if two && text[lo] == 62 && text[lo + 1] == 61 {
            (ReqOp::GreaterEq, lo + 2)
        } else if two && text[lo] == 60 && text[lo + 1] == 61 {
            (ReqOp::LessEq, lo + 2)
        } else if hi > lo && text[lo] == 62 {
            (ReqOp::Greater, lo + 1)
        } else if hi > lo && text[lo] == 60 {
            (ReqOp::Less, lo + 1)
        } else if hi > lo && text[lo] == 61 {
            (ReqOp::Exact, lo + 1)
        } else if hi > lo && text[lo] == 94 {
            (ReqOp::Caret, lo + 1)
        } else if hi > lo && text[lo] == 126 {
            (ReqOp::Tilde, lo + 1)
        } else {
            (ReqOp::Caret, lo)
        };
        proof {
            if t.len() >= 1 {
                assert(t[0] == text@[lo as int]);
            }
            if t.len() >= 2 {
                assert(t[1] == text@[lo + 1]);
            }
            assert(split_op(t).0 == op);
            assert(split_op(t).1 =~= text@.subrange(lo2 as int, hi as int));
        }
        match parse_core(text, op, lo2, hi) {
            Some(q) => {
                // Reject text no version can satisfy.
                let sat = match q.op {
                    ReqOp::Greater => {
                        let at_top = match (&q.minor, &q.patch) {
                            (None, _) => true,
                            (Some(mi), None) => *mi == u64::MAX,
                            (Some(mi), Some(pa)) => *mi == u64::MAX && *pa == u64::MAX,
                        };
                        !(q.pre.is_none() && q.major == u64::MAX && at_top)
                    },
                    ReqOp::Less => {
                        let mi0: u64 = match &q.minor {
                            Some(x) => *x,
                            None => 0,
                        };
                        let pa0: u64 = match &q.patch {
                            Some(x) => *x,
                            None => 0,
                        };
                        !(q.pre.is_none() && q.major == 0 && mi0 == 0 && pa0 == 0)
                    },
                    _ => true,
                };
                if sat {
                    assert(req_satisfiable(q@));
                    Ok(q)
                } else {
                    assert(!req_satisfiable(q@));
                    Err(Error::InvalidRequirement(copy_bytes(text)))
                }
            },
            None => Err(Error::InvalidRequirement(copy_bytes(text))),
        }
    }
}

// ------------------------------------------------------------------
// Matching.
// ------------------------------------------------------------------

pub open spec fn opt0(o: Option<int>) -> int {
    match o {
        Option::Some(x) => x,
        Option::None => 0,
    }
}

/// The lowest version a requirement speaks of: unwritten components are zero.
pub open spec fn req_floor(r: RequirementV) -> VersionV {
    VersionV { major: r.major, minor: opt0(r.minor), patch: opt0(r.patch), pre: r.pre }
}

/// First version past a caret/tilde requirement's series: past the written
/// minor's series when a minor is written, else past the major's.
pub open spec fn compat_upper(r: RequirementV) -> VersionV {
    match r.minor {
        Option::None => VersionV { major: r.major + 1, minor: 0, patch: 0, pre: Option::None },
        Option::Some(mi) => VersionV { major: r.major, minor: mi + 1, patch: 0, pre: Option::None },
    }
}

/// A prerelease version is admitted only by a requirement that itself names a
/// prerelease of the same number triple.
pub open spec fn pre_gate(r: RequirementV, v: VersionV) -> bool {
    v.pre is Some ==> (r.pre is Some && v.major == r.major && r.minor == Option::Some(v.minor)
        && r.patch == Option::Some(v.patch))
}

/// `>` at the requirement's written precision: an unwritten component is
/// compared positionally, never read as zero — `>3.8` rejects all of `3.8.*`.
pub open spec fn cmp_gt(r: RequirementV, v: VersionV) -> bool {
    match r.minor {
        Option::None => v.major > r.major,
        Option::Some(mi) => match r.patch {
            Option::None => v.major > r.major || (v.major == r.major && v.minor > mi),
            Option::Some(_) => version_lt(req_floor(r), v),
        },
    }
}

/// `>=` at the written precision.
pub open spec fn cmp_ge(r: RequirementV, v: VersionV) -> bool {
    match r.minor {
        Option::None => v.major >= r.major,
        Option::Some(mi) => match r.patch {
            Option::None => v.major > r.major || (v.major == r.major && v.minor >= mi),
            Option::Some(_) => version_le(req_floor(r), v),
        },
    }
}

/// `<` at the written precision.
pub open spec fn cmp_lt(r: RequirementV, v: VersionV) -> bool {
    match r.minor {
        Option::None => v.major < r.major,
        Option::Some(mi) => match r.patch {
            Option::None => v.major < r.major || (v.major == r.major && v.minor < mi),
            Option::Some(_) => version_lt(v, req_floor(r)),
        },
    }
}

/// `<=` at the written precision: `<=3.8` admits all of `3.8.*`.
pub open spec fn cmp_le(r: RequirementV, v: VersionV) -> bool {
    match r.minor {
        Option::None => v.major <= r.major,
        Option::Some(mi) => match r.patch {
            Option::None => v.major < r.major || (v.major == r.major && v.minor <= mi),
            Option::Some(_) => version_le(v, req_floor(r)),
        },
    }
}

/// Whether a version satisfies a requirement.
pub open spec fn req_matches(r: RequirementV, v: VersionV) -> bool {
    pre_gate(r, v) && match r.op {
        ReqOp::Exact => v.major == r.major && (r.minor is Some ==> v.minor == opt0(r.minor)) && (
        r.patch is Some ==> v.patch == opt0(r.patch)) && (r.pre is Some ==> v.pre == r.pre),
        ReqOp::GreaterEq => cmp_ge(r, v),
        ReqOp::Greater => cmp_gt(r, v),
        ReqOp::LessEq => cmp_le(r, v),
        ReqOp::Less => cmp_lt(r, v),
        ReqOp::Caret => version_le(req_floor(r), v) && version_lt(v, compat_upper(r)),
        ReqOp::Tilde => version_le(req_floor(r), v) && version_lt(v, compat_upper(r)),
    }
}

/// `>` can go unsatisfied only above the largest representable version.
pub open spec fn greater_unsat(q: RequirementV) -> bool {
    q.pre is None && q.major == u64::MAX && (match q.minor {
        Option::None => true,
        Option::Some(mi) => mi == u64::MAX && (match q.patch {
            Option::None => true,
            Option::Some(pa) => pa == u64::MAX,
        }),
    })
}

/// `<` can go unsatisfied only below the zero version.
pub open spec fn less_unsat(q: RequirementV) -> bool {
    q.pre is None && q.major == 0 && opt0(q.minor) == 0 && opt0(q.patch) == 0
}

/// Whether any version at all can satisfy the requirement. Every operator
/// but the strict comparisons is satisfied by the version it names.
pub open spec fn req_satisfiable(q: RequirementV) -> bool {
    !(q.op is Greater && greater_unsat(q)) && !(q.op is Less && less_unsat(q))
}

/// What a requirement line is accepted as: its parse, provided the predicate
/// is satisfiable; unsatisfiable text is rejected outright.
pub open spec fn spec_accepted_req(s: Seq<u8>) -> Option<RequirementV> {
    match spec_parse_req(s) {
        Option::Some(q) => if req_satisfiable(q) {
            Option::Some(q)
        } else {
            Option::None
        },
        Option::None => Option::None,
    }
}

/// Whether `v` is below the first version past the requirement's series.
fn lt_compat_upper(req: &Requirement, v: &Version) -> (r: bool)
    ensures
        r == version_lt(v@, compat_upper(req@)),
{
    match &req.minor {
        None => {
            if v.major <= req.major {
                true
            } else {
                v.major - 1 == req.major && v.minor == 0 && v.patch == 0 && v.pre.is_some()
            }
        },
        Some(mi) => {
            if v.major != req.major {
                v.major < req.major
            } else if v.minor <= *mi {
                true
            } else {
                v.minor - 1 == *mi && v.patch == 0 && v.pre.is_some()
            }
        },
    }
}

impl Requirement {
    /// The lowest version this requirement speaks of.
    fn floor_version(&self) -> (r: Version)
        ensures
            r@ == req_floor(self@),
    {
        let minor = match &self.minor {
            Some(x) => *x,
            None => 0,
        };
        let patch = match &self.patch {
            Some(x) => *x,
            None => 0,
        };
        let pre = match &self.pre {
            Some(t) => Some(copy_bytes(t.as_slice())),
            None => None,
        };
        let r = Version { major: self.major, minor, patch, pre };
        assert(r@ =~= req_floor(self@));
        r
    }

    /// Test a version against this requirement.
    pub fn matches(&self, v: &Version) -> (r: bool)
        ensures
            r == req_matches(self@, v@),
    {
        // A prerelease is admitted only against a prerelease requirement
        // with the same number triple.
        let gate = match &v.pre {
            None => true,
            Some(_) => match (&self.pre, &self.minor, &self.patch) {
                (Some(_), Some(mi), Some(pa)) => v.major == self.major && v.minor == *mi
                    && v.patch == *pa,
                _ => false,
            },
        };
        if !gate {
            return false;
        }
        match self.op {
            ReqOp::Exact => {
                let minor_ok = match &self.minor {
                    Some(mi) => v.minor == *mi,
                    None => true,
                };
                let patch_ok = match &self.patch {
                    Some(pa) => v.patch == *pa,
                    None => true,
                };
                let pre_ok = match (&self.pre, &v.pre) {
                    (Some(a), Some(b)) => bytes_eq(a.as_slice(), b.as_slice()),
                    (Some(_), None) => false,
                    (None, _) => true,
                };
                v.major == self.major && minor_ok && patch_ok && pre_ok
            },
            ReqOp::GreaterEq => match (&self.minor, &self.patch) {
                (None, _) => v.major >= self.major,
                (Some(mi), None) => v.major > self.major || (v.major == self.major && v.minor
                    >= *mi),
                (Some(_), Some(_)) => {
                    let floor = self.floor_version();
                    version_le_exec(&floor, v)
                },
            },
            ReqOp::Greater => match (&self.minor, &self.patch) {
                (None, _) => v.major > self.major,
                (Some(mi), None) => v.major > self.major || (v.major == self.major && v.minor
                    > *mi),
                (Some(_), Some(_)) => {
                    let floor = self.floor_version();
                    version_lt_exec(&floor, v)
                },
            },
            ReqOp::LessEq => match (&self.minor, &self.patch) {
                (None, _) => v.major <= self.major,
                (Some(mi), None) => v.major < self.major || (v.major == self.major && v.minor
                    <= *mi),
                (Some(_), Some(_)) => {
                    let floor = self.floor_version();
                    version_le_exec(v, &floor)
                },
            },
            ReqOp::Less => match (&self.minor, &self.patch) {
                (None, _) => v.major < self.major,
                (Some(mi), None) => v.major < self.major || (v.major == self.major && v.minor
                    < *mi),
                (Some(_), Some(_)) => {
                    let floor = self.floor_version();
                    version_lt_exec(v, &floor)
                },
            },
            ReqOp::Caret => {
                let floor = self.floor_version();
                version_le_exec(&floor, v) && lt_compat_upper(self, v)
            },
            ReqOp::Tilde => {
                let floor = self.floor_version();
                version_le_exec(&floor, v) && lt_compat_upper(self, v)
            },
        }
    }
}

/// Select the best match: the maximum, in the version order, of the
/// candidates satisfying the requirement; `None` exactly when none does.
pub fn best(req: &Requirement, candidates: &Vec<Version>) -> (res: Option<Version>)
    ensures
        match res {
            Some(m) => req_matches(req@, m@) && (exists|i: int|
                0 <= i < candidates@.len() && candidates@[i]@ == m@) && (forall|i: int|
                0 <= i < candidates@.len() && req_matches(req@, #[trigger] candidates@[i]@)
                    ==> version_le(candidates@[i]@, m@)),
            None => forall|i: int|
                0 <= i < candidates@.len() ==> !req_matches(req@, #[trigger] candidates@[i]@),
        },
{
    let n = candidates.len();
    let mut bi: Option<usize> = None;
    let mut i: usize = 0;
    while i < n
        invariant
            i <= n == candidates@.len(),
            match bi {
                Some(b) => b < i && req_matches(req@, candidates@[b as int]@) && (forall|j: int|
                    0 <= j < i && req_matches(req@, #[trigger] candidates@[j]@) ==> version_le(
                        candidates@[j]@,
                        candidates@[b as int]@,
                    )),
                None => forall|j: int|
                    0 <= j < i ==> !req_matches(req@, #[trigger] candidates@[j]@),
            },
        decreases n - i,
    {
        if req.matches(&candidates[i]) {
            match bi {
                None => {
                    bi = Some(i);
                    proof {
                        crate::version::lemma_version_lt_asym(candidates@[i as int]@, candidates@[i as int]@);
                    }
                },
                Some(b) => {
                    if version_lt_exec(&candidates[b], &candidates[i]) {
                        proof {
                            let bv = candidates@[b as int]@;
                            let iv = candidates@[i as int]@;
                            assert forall|j: int|
                                0 <= j < i + 1 && req_matches(req@, #[trigger] candidates@[j]@)
                                    implies version_le(candidates@[j]@, iv) by {
                                if j < i {
                                    let jv = candidates@[j]@;
                                    if version_lt(jv, bv) {
                                        crate::version::lemma_version_lt_trans(jv, bv, iv);
                                    }
                                }
                            }
                        }
                        bi = Some(i);
                    } else {
                        proof {
                            let bv = candidates@[b as int]@;
                            let iv = candidates@[i as int]@;
                            crate::version::lemma_version_lt_total(iv, bv);
                        }
                    }
                },
            }
        }
        i += 1;
    }
    match bi {
        Some(b) => Some(candidates[b].duplicate()),
        None => None,
    }
}


// ------------------------------------------------------------------
// The satisfiability laws behind the parser's rejections.
// ------------------------------------------------------------------

/// A version whose components the `Version` type can represent.
pub open spec fn version_v_wf(v: VersionV) -> bool {
    0 <= v.major <= u64::MAX && 0 <= v.minor <= u64::MAX && 0 <= v.patch <= u64::MAX
}

/// The shape the grammar gives every parsed requirement: components in
/// range, a patch only after a minor, a prerelease only after a full triple,
/// and tags non-empty.
pub open spec fn req_wf(q: RequirementV) -> bool {
    &&& 0 <= q.major <= u64::MAX
    &&& (match q.minor {
        Option::Some(x) => 0 <= x <= u64::MAX,
        Option::None => true,
    })
    &&& (match q.patch {
        Option::Some(x) => 0 <= x <= u64::MAX,
        Option::None => true,
    })
    &&& (q.patch is Some ==> q.minor is Some)
    &&& (match q.pre {
        Option::Some(t) => q.patch is Some && q.minor is Some && t.len() >= 1,
        Option::None => true,
    })
}

/// Everything the parser yields is well-formed.
pub proof fn lemma_parse_req_wf(s: Seq<u8>)
    ensures
        match spec_parse_req(s) {
            Option::Some(q) => req_wf(q),
            Option::None => true,
        },
{
}

/// Law: text the parser rejects as unsatisfiable really is unsatisfiable —
/// no representable version matches such a requirement.
pub proof fn lemma_unsatisfiable_matches_nothing(q: RequirementV, v: VersionV)
    requires
        !req_satisfiable(q),
        version_v_wf(v),
    ensures
        !req_matches(q, v),
{
    if req_matches(q, v) {
        match v.pre {
            Option::Some(_) => {
                assert(q.pre is Some);
            },
            Option::None => {
                assert(!pre_lt(v.pre, Option::None));
            },
        }
    }
}

/// Law: every requirement the parser accepts is satisfiable — some
/// representable version matches it.
pub proof fn lemma_accepted_satisfiable(q: RequirementV)
    requires
        req_wf(q),
        req_satisfiable(q),
    ensures
        exists|v: VersionV| version_v_wf(v) && req_matches(q, v),
{
    let fl = req_floor(q);
    match q.op {
        ReqOp::Greater => {
            match q.pre {
                Option::Some(t) => {
                    let w = VersionV { pre: Option::Some(t.push(45)), ..fl };
                    lemma_seq_lt_extend(t, 45);
                    assert(version_v_wf(w) && req_matches(q, w));
                },
                Option::None => {
                    if q.major < u64::MAX {
                        let w = VersionV {
                            major: q.major + 1,
                            minor: 0,
                            patch: 0,
                            pre: Option::None,
                        };
                        assert(version_v_wf(w) && req_matches(q, w));
                    } else {
                        let mi = opt0(q.minor);
                        if mi < u64::MAX {
                            let w = VersionV {
                                major: q.major,
                                minor: mi + 1,
                                patch: 0,
                                pre: Option::None,
                            };
                            assert(version_v_wf(w) && req_matches(q, w));
                        } else {
                            let w = VersionV {
                                major: q.major,
                                minor: mi,
                                patch: opt0(q.patch) + 1,
                                pre: Option::None,
                            };
                            assert(version_v_wf(w) && req_matches(q, w));
                        }
                    }
                },
            }
        },
        ReqOp::Less => {
            match q.pre {
                Option::Some(t) => {
                    let w = VersionV { pre: Option::Some(Seq::<u8>::empty()), ..fl };
                    assert(seq_lt(Seq::<u8>::empty(), t));
                    assert(version_v_wf(w) && req_matches(q, w));
                },
                Option::None => {
                    if q.major > 0 {
                        let w = VersionV {
                            major: q.major - 1,
                            minor: 0,
                            patch: 0,
                            pre: Option::None,
                        };
                        assert(version_v_wf(w) && req_matches(q, w));
                    } else if opt0(q.minor) > 0 {
                        let w = VersionV {
                            major: 0,
                            minor: opt0(q.minor) - 1,
                            patch: 0,
                            pre: Option::None,
                        };
                        assert(version_v_wf(w) && req_matches(q, w));
                    } else {
                        let w = VersionV {
                            major: 0,
                            minor: 0,
                            patch: opt0(q.patch) - 1,
                            pre: Option::None,
                        };
                        assert(version_v_wf(w) && req_matches(q, w));
                    }
                },
            }
        },
        _ => {
            assert(version_lt(fl, compat_upper(q)));
            assert(version_v_wf(fl) && req_matches(q, fl));
        },
    }
}

} // verus!
