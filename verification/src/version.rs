//! Concrete Python release versions: (major, minor, patch, optional
//! prerelease tag), totally ordered. A prerelease sorts before the release
//! with the same number triple; two prerelease tags compare bytewise.

use vstd::prelude::*;

use crate::digits::{bytes_eq, copy_bytes};

verus! {

#[derive(Debug)]
pub struct Version {
    pub major: u64,
    pub minor: u64,
    pub patch: u64,
    pub pre: Option<Vec<u8>>,
}

#[verifier::ext_equal]
pub ghost struct VersionV {
    pub major: int,
    pub minor: int,
    pub patch: int,
    pub pre: Option<Seq<u8>>,
}

impl View for Version {
    type V = VersionV;

    open spec fn view(&self) -> VersionV {
        VersionV {
            major: self.major as int,
            minor: self.minor as int,
            patch: self.patch as int,
            pre: match self.pre {
                Option::Some(t) => Option::Some(t@),
                Option::None => Option::None,
            },
        }
    }
}

/// Strict bytewise (lexicographic) order on prerelease tags.
pub open spec fn seq_lt(a: Seq<u8>, b: Seq<u8>) -> bool
    decreases a.len() + b.len(),
{
    if b.len() == 0 {
        false
    } else if a.len() == 0 {
        true
    } else if a[0] < b[0] {
        true
    } else if a[0] > b[0] {
        false
    } else {
        seq_lt(a.drop_first(), b.drop_first())
    }
}

pub open spec fn pre_lt(a: Option<Seq<u8>>, b: Option<Seq<u8>>) -> bool {
    match (a, b) {
        (Option::Some(x), Option::Some(y)) => seq_lt(x, y),
        (Option::Some(_), Option::None) => true,
        (Option::None, _) => false,
    }
}

/// The total order on versions: lexicographic on the number triple, then a
/// prerelease sorts before the plain release.
pub open spec fn version_lt(a: VersionV, b: VersionV) -> bool {
    a.major < b.major || (a.major == b.major && (a.minor < b.minor || (a.minor == b.minor && (
    a.patch < b.patch || (a.patch == b.patch && pre_lt(a.pre, b.pre))))))
}

pub open spec fn version_le(a: VersionV, b: VersionV) -> bool {
    version_lt(a, b) || a == b
}

pub proof fn lemma_seq_lt_total(a: Seq<u8>, b: Seq<u8>)
    ensures
        seq_lt(a, b) || seq_lt(b, a) || a == b,
    decreases a.len() + b.len(),
{
    if b.len() == 0 {
        if a.len() == 0 {
            assert(a =~= b);
        }
    } else if a.len() == 0 {
    } else if a[0] < b[0] || a[0] > b[0] {
    } else {
        lemma_seq_lt_total(a.drop_first(), b.drop_first());
        if a.drop_first() == b.drop_first() {
            assert(a.drop_first().len() == a.len() - 1);
            assert(b.drop_first().len() == b.len() - 1);
            assert(forall|i: int| 1 <= i < a.len() ==> a[i] == #[trigger] a.drop_first()[i - 1]);
            assert(forall|i: int| 1 <= i < b.len() ==> b[i] == #[trigger] b.drop_first()[i - 1]);
            assert forall|i: int| 0 <= i < a.len() implies a[i] == b[i] by {
                if i >= 1 {
                    assert(a[i] == a.drop_first()[i - 1]);
                    assert(b[i] == b.drop_first()[i - 1]);
                }
            }
            assert(a =~= b);
        }
    }
}

pub proof fn lemma_seq_lt_asym(a: Seq<u8>, b: Seq<u8>)
    ensures
        !(seq_lt(a, b) && seq_lt(b, a)),
    decreases a.len() + b.len(),
{
    if a.len() > 0 && b.len() > 0 && a[0] == b[0] {
        lemma_seq_lt_asym(a.drop_first(), b.drop_first());
    }
}

pub proof fn lemma_seq_lt_trans(a: Seq<u8>, b: Seq<u8>, c: Seq<u8>)
    requires
        seq_lt(a, b),
        seq_lt(b, c),
    ensures
        seq_lt(a, c),
    decreases a.len() + b.len() + c.len(),
{
    if a.len() > 0 && b.len() > 0 && c.len() > 0 && a[0] == b[0] && b[0] == c[0] {
        lemma_seq_lt_trans(a.drop_first(), b.drop_first(), c.drop_first());
    }
}

/// Appending a byte to a tag gives a strictly larger tag.
pub proof fn lemma_seq_lt_extend(t: Seq<u8>, b: u8)
    ensures
        seq_lt(t, t.push(b)),
    decreases t.len(),
{
    if t.len() > 0 {
        assert(t.push(b)[0] == t[0]);
        assert(t.push(b).drop_first() =~= t.drop_first().push(b));
        lemma_seq_lt_extend(t.drop_first(), b);
    } else {
        assert(t.push(b).len() == 1);
    }
}

/// The version order is total: any two versions compare, or are equal.
pub proof fn lemma_version_lt_total(a: VersionV, b: VersionV)
    ensures
        version_lt(a, b) || version_lt(b, a) || a == b,
{
    match (a.pre, b.pre) {
        (Option::Some(x), Option::Some(y)) => {
            lemma_seq_lt_total(x, y);
            if a.major == b.major && a.minor == b.minor && a.patch == b.patch && x == y {
                assert(a =~= b);
            }
        },
        (Option::None, Option::None) => {
            if a.major == b.major && a.minor == b.minor && a.patch == b.patch {
                assert(a =~= b);
            }
        },
        _ => {},
    }
}

pub proof fn lemma_version_lt_asym(a: VersionV, b: VersionV)
    ensures
        !(version_lt(a, b) && version_lt(b, a)),
{
    match (a.pre, b.pre) {
        (Option::Some(x), Option::Some(y)) => lemma_seq_lt_asym(x, y),
        _ => {},
    }
}

pub proof fn lemma_version_lt_trans(a: VersionV, b: VersionV, c: VersionV)
    requires
        version_lt(a, b),
        version_lt(b, c),
    ensures
        version_lt(a, c),
{
    if a.major == c.major && a.minor == c.minor && a.patch == c.patch {
        match (a.pre, b.pre, c.pre) {
            (Option::Some(x), Option::Some(y), Option::Some(z)) => {
                if a.major == b.major && a.minor == b.minor && a.patch == b.patch {
                    lemma_seq_lt_trans(x, y, z);
                }
            },
            _ => {},
        }
    }
}

impl Version {
    pub fn new(major: u64, minor: u64, patch: u64) -> (r: Version)
        ensures
            r@ == (VersionV { major: major as int, minor: minor as int, patch: patch as int, pre: Option::None }),
    {
        Version { major, minor, patch, pre: None }
    }

    pub fn duplicate(&self) -> (r: Version)
        ensures
            r@ == self@,
    {
        let pre = match &self.pre {
            Some(t) => Some(copy_bytes(t.as_slice())),
            None => None,
        };
        let r = Version { major: self.major, minor: self.minor, patch: self.patch, pre };
        assert(r@ =~= self@);
        r
    }
}

/// Strict bytewise order test on tags.
pub fn bytes_lt(a: &[u8], b: &[u8]) -> (r: bool)
    ensures
        r == seq_lt(a@, b@),
{
    let mut i: usize = 0;
    assert(a@.skip(0) =~= a@);
    assert(b@.skip(0) =~= b@);
    loop
        invariant
            i <= a@.len(),
            i <= b@.len(),
            seq_lt(a@, b@) == seq_lt(a@.skip(i as int), b@.skip(i as int)),
        decreases a@.len() - i,
    {
        let ghost sa = a@.skip(i as int);
        let ghost sb = b@.skip(i as int);
        if i == a.len() {
            assert(sa.len() == 0);
            return b.len() > i;
        }
        if i == b.len() {
            assert(sb.len() == 0);
            return false;
        }
        assert(sa[0] == a@[i as int] && sb[0] == b@[i as int]);
        if a[i] < b[i] {
            return true;
        }
        if a[i] > b[i] {
            return false;
        }
        assert(sa.drop_first() =~= a@.skip(i + 1));
        assert(sb.drop_first() =~= b@.skip(i + 1));
        i += 1;
    }
}

/// Strict order test between two versions.
pub fn version_lt_exec(a: &Version, b: &Version) -> (r: bool)
    ensures
        r == version_lt(a@, b@),
{
    if a.major != b.major {
        return a.major < b.major;
    }
    if a.minor != b.minor {
        return a.minor < b.minor;
    }
    if a.patch != b.patch {
        return a.patch < b.patch;
    }
    match (&a.pre, &b.pre) {
        (Some(x), Some(y)) => bytes_lt(x.as_slice(), y.as_slice()),
        (Some(_), None) => true,
        (None, _) => false,
    }
}

/// Non-strict order test between two versions.
pub fn version_le_exec(a: &Version, b: &Version) -> (r: bool)
    ensures
        r == version_le(a@, b@),
{
    let lt_ba = version_lt_exec(b, a);
    proof {
        lemma_version_lt_total(a@, b@);
        lemma_version_lt_asym(a@, b@);
        lemma_version_lt_asym(a@, a@);
    }
    !lt_ba
}

/// The version's full rendered name: `major.minor.patch`, with `-tag` when
/// a prerelease tag is present.
pub fn version_name(v: &Version) -> (r: Vec<u8>)
    ensures
        r@ == crate::digits::dec_render(v.major as nat) + seq![46u8] + crate::digits::dec_render(
            v.minor as nat,
        ) + seq![46u8] + crate::digits::dec_render(v.patch as nat) + (match v.pre {
            Option::Some(t) => seq![45u8] + t@,
            Option::None => Seq::<u8>::empty(),
        }),
{
    let mut r = crate::digits::render_u64(v.major);
    r.push(46u8);
    let mi = crate::digits::render_u64(v.minor);
    crate::digits::append_bytes(&mut r, mi.as_slice());
    r.push(46u8);
    let pa = crate::digits::render_u64(v.patch);
    crate::digits::append_bytes(&mut r, pa.as_slice());
    match &v.pre {
        Some(t) => {
            r.push(45u8);
            crate::digits::append_bytes(&mut r, t.as_slice());
        },
        None => {},
    }
    proof {
        let want = crate::digits::dec_render(v.major as nat) + seq![46u8]
            + crate::digits::dec_render(v.minor as nat) + seq![46u8] + crate::digits::dec_render(
            v.patch as nat,
        ) + (match v@.pre {
            Option::Some(t) => seq![45u8] + t,
            Option::None => Seq::<u8>::empty(),
        });
        assert(r@ =~= want);
    }
    r
}

/// Equality test between two versions.
pub fn version_eq_exec(a: &Version, b: &Version) -> (r: bool)
    ensures
        r == (a@ == b@),
{
    if a.major != b.major || a.minor != b.minor || a.patch != b.patch {
        return false;
    }
    let pre_eq = match (&a.pre, &b.pre) {
        (Some(x), Some(y)) => bytes_eq(x.as_slice(), y.as_slice()),
        (None, None) => true,
        _ => false,
    };
    if pre_eq {
        assert(a@ =~= b@);
    }
    pre_eq
}

} // verus!
