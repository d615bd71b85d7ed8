//! The alias table: the fixed mapping from each logical command to its
//! version-templated binary basename, the marker standing for the version
//! digits. A template is a prefix and a suffix around the marker
//! (`python###m-config` is prefix `python`, suffix `m-config`); a trailing
//! dash in the prefix (`easy_install-###`) is kept in the version-qualified
//! source name and dropped from the bare and major-only link names. The same
//! table builds a toolchain's hard links (`python3.9` -> `python`,
//! `python3`; `easy_install-3.9` -> `easy_install`, `easy_install3`) and
//! decodes a shim's invoked basename back into a logical command and a
//! version hint.

use vstd::prelude::*;

use crate::digits::{
    all_digits, copy_bytes, copy_range, dec_render, dec_value, is_ascii_digit,
    lemma_dec_render_wf, lemma_dec_value_of_render, lemma_deep_view_names, parse_u64_digits,
    render_u64, append_bytes,
};
use crate::error::Error;
use crate::requirement::{find_byte, find_byte_in, lemma_find_byte};
use crate::version::Version;

verus! {

/// The version suffix carried by an invoked basename: none, a bare major, or
/// `major.minor`.
#[derive(Clone, Copy, PartialEq, Eq, Structural, Debug)]
pub enum VersionHint {
    Bare,
    Major(u64),
    MajorMinor(u64, u64),
}

/// A decoded shim invocation: the logical command and its version hint.
pub struct ShimName {
    pub command: Vec<u8>,
    pub hint: VersionHint,
}

/// One alias template: the bytes before and after the version marker.
pub struct Template {
    pub prefix: Vec<u8>,
    pub suffix: Vec<u8>,
}

#[verifier::ext_equal]
pub ghost struct TemplateV {
    pub prefix: Seq<u8>,
    pub suffix: Seq<u8>,
}

impl View for Template {
    type V = TemplateV;

    open spec fn view(&self) -> TemplateV {
        TemplateV { prefix: self.prefix@, suffix: self.suffix@ }
    }
}

/// The alias table, one template per logical command.
pub open spec fn spec_templates() -> Seq<TemplateV> {
    seq![
        TemplateV {
            prefix: seq![
                101u8, 97u8, 115u8, 121u8, 95u8, 105u8, 110u8, 115u8, 116u8, 97u8, 108u8, 108u8,
                45u8,
            ],
            suffix: seq![],
        },
        TemplateV { prefix: seq![105u8, 100u8, 108u8, 101u8], suffix: seq![] },
        TemplateV { prefix: seq![112u8, 105u8, 112u8], suffix: seq![] },
        TemplateV { prefix: seq![112u8, 121u8, 100u8, 111u8, 99u8], suffix: seq![] },
        TemplateV { prefix: seq![112u8, 121u8, 116u8, 104u8, 111u8, 110u8], suffix: seq![] },
        TemplateV { prefix: seq![112u8, 121u8, 116u8, 104u8, 111u8, 110u8], suffix: seq![109u8] },
        TemplateV {
            prefix: seq![112u8, 121u8, 116u8, 104u8, 111u8, 110u8],
            suffix: seq![109u8, 45u8, 99u8, 111u8, 110u8, 102u8, 105u8, 103u8],
        },
        TemplateV {
            prefix: seq![112u8, 121u8, 118u8, 101u8, 110u8, 118u8, 45u8],
            suffix: seq![],
        },
    ]
}

/// The prefix with a trailing dash dropped: what the bare and major-only
/// link names start with.
pub open spec fn short_prefix(t: TemplateV) -> Seq<u8> {
    if t.prefix.len() > 0 && t.prefix.last() == 45 {
        t.prefix.drop_last()
    } else {
        t.prefix
    }
}

/// The unsuffixed link name — the logical command itself.
pub open spec fn tpl_bare(t: TemplateV) -> Seq<u8> {
    short_prefix(t) + t.suffix
}

/// The major-only link name.
pub open spec fn tpl_major(t: TemplateV, ma: nat) -> Seq<u8> {
    short_prefix(t) + dec_render(ma) + t.suffix
}

/// The version-qualified source name the build installs.
pub open spec fn tpl_source(t: TemplateV, ma: nat, mi: nat) -> Seq<u8> {
    t.prefix + dec_render(ma) + seq![46u8] + dec_render(mi) + t.suffix
}

/// Decode a version marker's digits: empty, `major`, or `major.minor`.
pub open spec fn spec_suffix_hint(t: Seq<u8>) -> Option<VersionHint> {
    if t.len() == 0 {
        Option::Some(VersionHint::Bare)
    } else {
        match find_byte(t, 46) {
            Option::None => if all_digits(t) && dec_value(t) <= u64::MAX {
                Option::Some(VersionHint::Major(dec_value(t) as u64))
            } else {
                Option::None
            },
            Option::Some(i) => {
                let a = t.take(i);
                let b = t.skip(i + 1);
                if a.len() >= 1 && b.len() >= 1 && all_digits(a) && all_digits(b) && find_byte(
                    b,
                    46,
                ) is None && dec_value(a) <= u64::MAX && dec_value(b) <= u64::MAX {
                    Option::Some(
                        VersionHint::MajorMinor(dec_value(a) as u64, dec_value(b) as u64),
                    )
                } else {
                    Option::None
                }
            },
        }
    }
}

/// Whether a basename is `p`, the marker's digits, then `s` — and what the
/// digits say.
pub open spec fn matches_pat(p: Seq<u8>, s: Seq<u8>, name: Seq<u8>) -> Option<VersionHint> {
    if name.len() >= p.len() + s.len() && name.take(p.len() as int) == p && name.skip(
        (name.len() - s.len()) as int,
    ) == s {
        spec_suffix_hint(name.subrange(p.len() as int, (name.len() - s.len()) as int))
    } else {
        Option::None
    }
}

/// Decode a basename against one template: the version-qualified form (dash
/// prefix included), else the bare or major-only form (dash dropped).
pub open spec fn tpl_decode(t: TemplateV, name: Seq<u8>) -> Option<VersionHint> {
    match matches_pat(t.prefix, t.suffix, name) {
        Option::Some(VersionHint::MajorMinor(a, b)) => Option::Some(
            VersionHint::MajorMinor(a, b),
        ),
        _ => match matches_pat(short_prefix(t), t.suffix, name) {
            Option::Some(VersionHint::Bare) => Option::Some(VersionHint::Bare),
            Option::Some(VersionHint::Major(x)) => Option::Some(VersionHint::Major(x)),
            _ => Option::None,
        },
    }
}

/// First template that decodes the basename, with its logical command.
pub open spec fn scan_templates(ts: Seq<TemplateV>, name: Seq<u8>) -> Option<
    (Seq<u8>, VersionHint),
>
    decreases ts.len(),
{
    if ts.len() == 0 {
        Option::None
    } else {
        match tpl_decode(ts[0], name) {
            Option::Some(h) => Option::Some((tpl_bare(ts[0]), h)),
            Option::None => scan_templates(ts.drop_first(), name),
        }
    }
}

/// Decode an invoked basename via the alias table.
pub open spec fn spec_identify(name: Seq<u8>) -> Option<(Seq<u8>, VersionHint)> {
    scan_templates(spec_templates(), name)
}


/// The alias table, as values.
pub fn alias_templates() -> (r: Vec<Template>)
    ensures
        r@.len() == spec_templates().len(),
        forall|i: int| 0 <= i < r@.len() ==> (#[trigger] r@[i])@ == spec_templates()[i],
{
    let mut r: Vec<Template> = Vec::new();
    let mut p: Vec<u8> = Vec::new();
    p.push(101u8);
    p.push(97u8);
    p.push(115u8);
    p.push(121u8);
    p.push(95u8);
    p.push(105u8);
    p.push(110u8);
    p.push(115u8);
    p.push(116u8);
    p.push(97u8);
    p.push(108u8);
    p.push(108u8);
    p.push(45u8);
    let t = Template { prefix: p, suffix: Vec::new() };
    assert(t@ =~= spec_templates()[0]);
    r.push(t);
    let mut p: Vec<u8> = Vec::new();
    p.push(105u8);
    p.push(100u8);
    p.push(108u8);
    p.push(101u8);
    let t = Template { prefix: p, suffix: Vec::new() };
    assert(t@ =~= spec_templates()[1]);
    r.push(t);
    let mut p: Vec<u8> = Vec::new();
    p.push(112u8);
    p.push(105u8);
    p.push(112u8);
    let t = Template { prefix: p, suffix: Vec::new() };
    assert(t@ =~= spec_templates()[2]);
    r.push(t);
    let mut p: Vec<u8> = Vec::new();
    p.push(112u8);
    p.push(121u8);
    p.push(100u8);
    p.push(111u8);
    p.push(99u8);
    let t = Template { prefix: p, suffix: Vec::new() };
    assert(t@ =~= spec_templates()[3]);
    r.push(t);
    let mut p: Vec<u8> = Vec::new();
    p.push(112u8);
    p.push(121u8);
    p.push(116u8);
    p.push(104u8);
    p.push(111u8);
    p.push(110u8);
    let t = Template { prefix: p, suffix: Vec::new() };
    assert(t@ =~= spec_templates()[4]);
    r.push(t);
    let mut p: Vec<u8> = Vec::new();
    p.push(112u8);
    p.push(121u8);
    p.push(116u8);
    p.push(104u8);
    p.push(111u8);
    p.push(110u8);
    let mut sx: Vec<u8> = Vec::new();
    sx.push(109u8);
    let t = Template { prefix: p, suffix: sx };
    assert(t@ =~= spec_templates()[5]);
    r.push(t);
    let mut p: Vec<u8> = Vec::new();
    p.push(112u8);
    p.push(121u8);
    p.push(116u8);
    p.push(104u8);
    p.push(111u8);
    p.push(110u8);
    let mut sx: Vec<u8> = Vec::new();
    sx.push(109u8);
    sx.push(45u8);
    sx.push(99u8);
    sx.push(111u8);
    sx.push(110u8);
    sx.push(102u8);
    sx.push(105u8);
    sx.push(103u8);
    let t = Template { prefix: p, suffix: sx };
    assert(t@ =~= spec_templates()[6]);
    r.push(t);
    let mut p: Vec<u8> = Vec::new();
    p.push(112u8);
    p.push(121u8);
    p.push(118u8);
    p.push(101u8);
    p.push(110u8);
    p.push(118u8);
    p.push(45u8);
    let t = Template { prefix: p, suffix: Vec::new() };
    assert(t@ =~= spec_templates()[7]);
    r.push(t);
    r
}

/// Length of the prefix once a trailing dash is dropped.
fn short_prefix_len(t: &Template) -> (r: usize)
    ensures
        r as int == short_prefix(t@).len(),
        t.prefix@.subrange(0, r as int) == short_prefix(t@),
        r <= t.prefix@.len(),
{
    let n = t.prefix.len();
    if n > 0 && t.prefix[n - 1] == 45 {
        assert(t.prefix@.subrange(0, n - 1) =~= t.prefix@.drop_last());
        n - 1
    } else {
        assert(t.prefix@.subrange(0, n as int) =~= t.prefix@);
        n
    }
}

fn starts_with(name: &[u8], p: &[u8]) -> (r: bool)
    ensures
        r == (name@.len() >= p@.len() && name@.take(p@.len() as int) == p@),
{
    let k = p.len();
    if name.len() < k {
        return false;
    }
    let mut j: usize = 0;
    while j < k
        invariant
            j <= k == p@.len() <= name@.len(),
            forall|x: int| 0 <= x < j ==> name@[x] == p@[x],
        decreases k - j,
    {
        if name[j] != p[j] {
            assert(name@.take(k as int)[j as int] != p@[j as int]);
            return false;
        }
        j += 1;
    }
    assert(name@.take(k as int) =~= p@);
    true
}

fn ends_with(name: &[u8], s: &[u8]) -> (r: bool)
    ensures
        r == (name@.len() >= s@.len() && name@.skip((name@.len() - s@.len()) as int) == s@),
{
    let k = s.len();
    if name.len() < k {
        return false;
    }
    let off = name.len() - k;
    let mut j: usize = 0;
    while j < k
        invariant
            j <= k == s@.len(),
            off + k == name@.len(),
            name@.len() <= usize::MAX,
            forall|x: int| 0 <= x < j ==> name@[off + x] == s@[x],
        decreases k - j,
    {
        if name[off + j] != s[j] {
            assert(name@.skip(off as int)[j as int] != s@[j as int]);
            return false;
        }
        j += 1;
    }
    assert(name@.skip(off as int) =~= s@);
    true
}

/// Decode the digits between a matched prefix and suffix.
fn decode_middle(s: &[u8], start: usize, end: usize) -> (r: Option<VersionHint>)
    requires
        start <= end <= s@.len(),
    ensures
        r == spec_suffix_hint(s@.subrange(start as int, end as int)),
{
    let ghost m = s@.subrange(start as int, end as int);
    if start == end {
        return Some(VersionHint::Bare);
    }
    match find_byte_in(s, start, end, 46) {
        None => {
            match parse_u64_digits(s, start, end) {
                Some(ma) => Some(VersionHint::Major(ma)),
                None => None,
            }
        },
        Some(i) => {
            assert(m.take(i - start) =~= s@.subrange(start as int, i as int));
            assert(m.skip(i - start + 1) =~= s@.subrange(i + 1, end as int));
            let ma = match parse_u64_digits(s, start, i) {
                Some(v) => v,
                None => {
                    return None;
                },
            };
            match find_byte_in(s, i + 1, end, 46) {
                Some(_) => None,
                None => {
                    match parse_u64_digits(s, i + 1, end) {
                        Some(mi) => Some(VersionHint::MajorMinor(ma, mi)),
                        None => None,
                    }
                },
            }
        },
    }
}

fn match_pat_exec(name: &[u8], p: &[u8], s: &[u8]) -> (r: Option<VersionHint>)
    ensures
        r == matches_pat(p@, s@, name@),
{
    if name.len() < p.len() || name.len() - p.len() < s.len() {
        return None;
    }
    if starts_with(name, p) && ends_with(name, s) {
        decode_middle(name, p.len(), name.len() - s.len())
    } else {
        None
    }
}

/// Decode a basename against one template.
fn tpl_decode_exec(t: &Template, name: &[u8]) -> (r: Option<VersionHint>)
    ensures
        r == tpl_decode(t@, name@),
{
    match match_pat_exec(name, t.prefix.as_slice(), t.suffix.as_slice()) {
        Some(VersionHint::MajorMinor(a, b)) => Some(VersionHint::MajorMinor(a, b)),
        _ => {
            let spl = short_prefix_len(t);
            let sp = copy_range(t.prefix.as_slice(), 0, spl);
            match match_pat_exec(name, sp.as_slice(), t.suffix.as_slice()) {
                Some(VersionHint::Bare) => Some(VersionHint::Bare),
                Some(VersionHint::Major(x)) => Some(VersionHint::Major(x)),
                _ => None,
            }
        },
    }
}

/// The unsuffixed link name — the logical command itself.
pub fn bare_name_of(t: &Template) -> (r: Vec<u8>)
    ensures
        r@ == tpl_bare(t@),
{
    let spl = short_prefix_len(t);
    let mut r = copy_range(t.prefix.as_slice(), 0, spl);
    append_bytes(&mut r, t.suffix.as_slice());
    r
}

/// The major-only link name.
pub fn major_name_of(t: &Template, v: &Version) -> (r: Vec<u8>)
    ensures
        r@ == tpl_major(t@, v.major as nat),
{
    let spl = short_prefix_len(t);
    let mut r = copy_range(t.prefix.as_slice(), 0, spl);
    let ma = render_u64(v.major);
    append_bytes(&mut r, ma.as_slice());
    append_bytes(&mut r, t.suffix.as_slice());
    assert(r@ =~= tpl_major(t@, v.major as nat));
    r
}

/// The version-qualified source name the build installs.
pub fn source_name_of(t: &Template, v: &Version) -> (r: Vec<u8>)
    ensures
        r@ == tpl_source(t@, v.major as nat, v.minor as nat),
{
    let mut r = copy_bytes(t.prefix.as_slice());
    let ma = render_u64(v.major);
    append_bytes(&mut r, ma.as_slice());
    r.push(46u8);
    let mi = render_u64(v.minor);
    append_bytes(&mut r, mi.as_slice());
    append_bytes(&mut r, t.suffix.as_slice());
    assert(r@ =~= tpl_source(t@, v.major as nat, v.minor as nat));
    r
}

/// Decode the basename a shim was invoked under into a logical command and a
/// version hint; a basename the table does not know is `UnknownShimTarget`.
pub fn identify(name: &[u8]) -> (r: Result<ShimName, Error>)
    ensures
        match r {
            Ok(sn) => spec_identify(name@) == Some((sn.command@, sn.hint)),
            Err(e) => spec_identify(name@) is None && match e {
                Error::UnknownShimTarget(n) => n@ == name@,
                _ => false,
            },
        },
{
    let templates = alias_templates();
    let ghost ts = spec_templates();
    assert(ts.skip(0) =~= ts);
    let n = templates.len();
    let mut i: usize = 0;
    while i < n
        invariant
            i <= n == templates@.len(),
            n == ts.len(),
            forall|k: int| 0 <= k < n ==> (#[trigger] templates@[k])@ == ts[k],
            spec_identify(name@) == scan_templates(ts.skip(i as int), name@),
        decreases n - i,
    {
        proof {
            assert(ts.skip(i as int)[0] == ts[i as int]);
            assert(ts.skip(i as int).drop_first() =~= ts.skip(i + 1));
        }
        match tpl_decode_exec(&templates[i], name) {
            Some(h) => {
                let cmd = bare_name_of(&templates[i]);
                return Ok(ShimName { command: cmd, hint: h });
            },
            None => {},
        }
        i += 1;
    }
    assert(ts.skip(n as int) =~= Seq::<TemplateV>::empty());
    Err(Error::UnknownShimTarget(copy_bytes(name)))
}

/// The hard links Finalize builds for one logical command of one toolchain:
/// the version-qualified source, linked to the bare name and the major name.
pub struct AliasLinks {
    pub src: Vec<u8>,
    pub bare: Vec<u8>,
    pub major: Vec<u8>,
}

/// The full link plan for a toolchain: one entry per template.
pub fn link_plan(v: &Version) -> (r: Vec<AliasLinks>)
    ensures
        r@.len() == spec_templates().len(),
        forall|k: int| 0 <= k < r@.len() ==> {
            &&& (#[trigger] r@[k]).src@ == tpl_source(
                spec_templates()[k],
                v.major as nat,
                v.minor as nat,
            )
            &&& r@[k].bare@ == tpl_bare(spec_templates()[k])
            &&& r@[k].major@ == tpl_major(spec_templates()[k], v.major as nat)
        },
{
    let templates = alias_templates();
    let mut r: Vec<AliasLinks> = Vec::new();
    let mut k: usize = 0;
    while k < templates.len()
        invariant
            k <= templates@.len() == spec_templates().len(),
            forall|i: int| 0 <= i < templates@.len() ==> (#[trigger] templates@[i])@
                == spec_templates()[i],
            r@.len() == k,
            forall|i: int| 0 <= i < k ==> {
                &&& (#[trigger] r@[i]).src@ == tpl_source(
                    spec_templates()[i],
                    v.major as nat,
                    v.minor as nat,
                )
                &&& r@[i].bare@ == tpl_bare(spec_templates()[i])
                &&& r@[i].major@ == tpl_major(spec_templates()[i], v.major as nat)
            },
        decreases templates@.len() - k,
    {
        let t = &templates[k];
        let links = AliasLinks {
            src: source_name_of(t, v),
            bare: bare_name_of(t),
            major: major_name_of(t, v),
        };
        r.push(links);
        k += 1;
    }
    r
}

/// The `j`-th binary basename a finished toolchain offers: for each template,
/// in order, the bare name, the major-only name and the qualified name.
pub open spec fn spec_binary_name(j: int, ma: nat, mi: nat) -> Seq<u8> {
    let k = j / 3;
    if j % 3 == 0 {
        tpl_bare(spec_templates()[k])
    } else if j % 3 == 1 {
        tpl_major(spec_templates()[k], ma)
    } else {
        tpl_source(spec_templates()[k], ma, mi)
    }
}

/// Every binary basename a finished toolchain of this version offers.
pub fn binaries_for(v: &Version) -> (r: Vec<Vec<u8>>)
    ensures
        r.deep_view().len() == 3 * spec_templates().len(),
        forall|j: int|
            0 <= j < r.deep_view().len() ==> r.deep_view()[j] == spec_binary_name(
                j,
                v.major as nat,
                v.minor as nat,
            ),
{
    let templates = alias_templates();
    let mut r: Vec<Vec<u8>> = Vec::new();
    let mut k: usize = 0;
    while k < templates.len()
        invariant
            k <= templates@.len() == spec_templates().len(),
            forall|i: int| 0 <= i < templates@.len() ==> (#[trigger] templates@[i])@
                == spec_templates()[i],
            r@.len() == 3 * k,
            forall|j: int|
                0 <= j < r@.len() ==> (#[trigger] r@[j])@ == spec_binary_name(
                    j,
                    v.major as nat,
                    v.minor as nat,
                ),
        decreases templates@.len() - k,
    {
        let t = &templates[k];
        r.push(bare_name_of(t));
        r.push(major_name_of(t, v));
        r.push(source_name_of(t, v));
        proof {
            assert forall|j: int| 0 <= j < r@.len() implies (#[trigger] r@[j])@
                == spec_binary_name(j, v.major as nat, v.minor as nat) by {
                if j >= 3 * k {
                    assert(j / 3 == k && (j % 3 == j - 3 * k));
                }
            }
        }
        k += 1;
    }
    proof {
        lemma_deep_view_names(r);
    }
    r
}


// ------------------------------------------------------------------
// The alias round trip.
// ------------------------------------------------------------------

/// A middle ending in a non-digit never decodes.
proof fn lemma_suffix_hint_none_last(m: Seq<u8>)
    requires
        m.len() >= 1,
        !is_ascii_digit(m.last()),
    ensures
        spec_suffix_hint(m) is None,
{
    lemma_find_byte(m, 46);
    match find_byte(m, 46) {
        Option::None => {
            assert(!is_ascii_digit(m[m.len() - 1]));
        },
        Option::Some(i) => {
            let b = m.skip(i + 1);
            if b.len() >= 1 {
                assert(b.last() == m.last());
                assert(!is_ascii_digit(b[b.len() - 1]));
            }
        },
    }
}

/// A pattern misses when a prefix byte differs (or the name is too short).
proof fn lemma_pat_none_byte(p: Seq<u8>, s: Seq<u8>, name: Seq<u8>, k: int)
    requires
        0 <= k < p.len(),
        k >= name.len() || name[k] != p[k],
    ensures
        matches_pat(p, s, name) is None,
{
    if name.len() >= p.len() + s.len() && name.take(p.len() as int) == p {
        assert(name.take(p.len() as int)[k] == name[k]);
    }
}

/// A template misses when a byte of its dash-less prefix differs.
proof fn lemma_tpl_none_byte(t: TemplateV, name: Seq<u8>, k: int)
    requires
        0 <= k < short_prefix(t).len(),
        k >= name.len() || name[k] != short_prefix(t)[k],
    ensures
        tpl_decode(t, name) is None,
{
    assert(short_prefix(t)[k] == t.prefix[k]);
    lemma_pat_none_byte(t.prefix, t.suffix, name, k);
    lemma_pat_none_byte(short_prefix(t), t.suffix, name, k);
}

/// A pattern misses when the last byte is not the suffix's.
proof fn lemma_pat_none_last(p: Seq<u8>, s: Seq<u8>, name: Seq<u8>)
    requires
        s.len() >= 1,
        name.len() == 0 || name.last() != s.last(),
    ensures
        matches_pat(p, s, name) is None,
{
    if name.len() >= p.len() + s.len() && name.skip((name.len() - s.len()) as int) == s {
        assert(name.skip((name.len() - s.len()) as int).last() == name.last());
    }
}

/// A suffixed template misses a name that ends otherwise.
proof fn lemma_tpl_none_last(t: TemplateV, name: Seq<u8>)
    requires
        t.suffix.len() >= 1,
        name.len() == 0 || name.last() != t.suffix.last(),
    ensures
        tpl_decode(t, name) is None,
{
    lemma_pat_none_last(t.prefix, t.suffix, name);
    lemma_pat_none_last(short_prefix(t), t.suffix, name);
}

/// An unsuffixed, dash-less template misses any longer name that ends in a
/// non-digit: whatever follows its prefix cannot be version digits.
proof fn lemma_tpl_none_trailing(t: TemplateV, name: Seq<u8>)
    requires
        t.suffix.len() == 0,
        short_prefix(t) == t.prefix,
        name.len() > t.prefix.len(),
        !is_ascii_digit(name.last()),
    ensures
        tpl_decode(t, name) is None,
{
    // when the prefix bytes do not all match, both patterns miss by
    // definition; when they do, the middle cannot be version digits
    if name.take(t.prefix.len() as int) == t.prefix {
        let m = name.subrange(t.prefix.len() as int, (name.len() - t.suffix.len()) as int);
        assert(m.len() >= 1);
        assert(m.last() == name.last());
        lemma_suffix_hint_none_last(m);
    }
}

/// Lengths and bytes of the three names a template builds.
proof fn lemma_built_name_facts(t: TemplateV, ma: u64, mi: u64)
    ensures
        ({
            let sp = short_prefix(t);
            let d = dec_render(ma as nat);
            let e = dec_render(mi as nat);
            let n1 = tpl_bare(t);
            let n2 = tpl_major(t, ma as nat);
            let n3 = tpl_source(t, ma as nat, mi as nat);
            &&& sp.len() <= t.prefix.len()
            &&& (forall|x: int| 0 <= x < sp.len() ==> #[trigger] sp[x] == t.prefix[x])
            &&& n1.len() == sp.len() + t.suffix.len()
            &&& n2.len() == sp.len() + d.len() + t.suffix.len()
            &&& n3.len() == t.prefix.len() + d.len() + 1 + e.len() + t.suffix.len()
            &&& d.len() >= 1 && e.len() >= 1
            &&& (forall|x: int| 0 <= x < sp.len() ==> #[trigger] n1[x] == sp[x])
            &&& (forall|x: int| 0 <= x < sp.len() ==> #[trigger] n2[x] == sp[x])
            &&& (forall|x: int| 0 <= x < t.prefix.len() ==> #[trigger] n3[x] == t.prefix[x])
            &&& (t.suffix.len() > 0 ==> n1.last() == t.suffix.last() && n2.last()
                == t.suffix.last() && n3.last() == t.suffix.last())
            &&& (t.suffix.len() == 0 ==> n2.last() == d.last() && n3.last() == e.last()
                && is_ascii_digit(n2.last()) && is_ascii_digit(n3.last()))
            &&& (t.suffix.len() == 0 && sp.len() > 0 ==> n1.last() == sp.last())
        }),
{
    let sp = short_prefix(t);
    let d = dec_render(ma as nat);
    let e = dec_render(mi as nat);
    lemma_dec_render_wf(ma as nat);
    lemma_dec_render_wf(mi as nat);
    assert(is_ascii_digit(d[d.len() - 1]));
    assert(is_ascii_digit(e[e.len() - 1]));
    assert forall|x: int| 0 <= x < sp.len() implies #[trigger] sp[x] == t.prefix[x] by {
        if t.prefix.len() > 0 && t.prefix.last() == 45 {
            assert(sp == t.prefix.drop_last());
        }
    }
    assert forall|x: int| 0 <= x < sp.len() implies #[trigger] tpl_major(t, ma as nat)[x]
        == sp[x] by {
        assert((sp + d + t.suffix)[x] == (sp + d)[x]);
        assert((sp + d)[x] == sp[x]);
    }
    assert forall|x: int| 0 <= x < t.prefix.len() implies #[trigger] tpl_source(
        t,
        ma as nat,
        mi as nat,
    )[x] == t.prefix[x] by {
        assert((t.prefix + d + seq![46u8] + e + t.suffix)[x] == (t.prefix + d + seq![46u8]
            + e)[x]);
        assert((t.prefix + d + seq![46u8] + e)[x] == (t.prefix + d + seq![46u8])[x]);
        assert((t.prefix + d + seq![46u8])[x] == (t.prefix + d)[x]);
        assert((t.prefix + d)[x] == t.prefix[x]);
    }
    if t.suffix.len() > 0 {
        assert(tpl_bare(t).last() == t.suffix.last());
        assert(tpl_major(t, ma as nat).last() == t.suffix.last());
        assert(tpl_source(t, ma as nat, mi as nat).last() == t.suffix.last());
    } else {
        assert(tpl_bare(t) =~= sp);
        assert(tpl_major(t, ma as nat) =~= sp + d);
        assert((sp + d).last() == d.last());
        assert(tpl_source(t, ma as nat, mi as nat) =~= t.prefix + d + seq![46u8] + e);
        assert((t.prefix + d + seq![46u8] + e).last() == e.last());
    }
}


/// A template decodes its own bare link name back to no version.
proof fn lemma_tpl_decode_bare(t: TemplateV)
    ensures
        tpl_decode(t, tpl_bare(t)) == Some(VersionHint::Bare),
{
    let name = tpl_bare(t);
    let sp = short_prefix(t);
    assert(name.len() == sp.len() + t.suffix.len());
    assert(name.take(sp.len() as int) =~= sp);
    assert(name.skip((name.len() - t.suffix.len()) as int) =~= t.suffix);
    assert(name.subrange(sp.len() as int, (name.len() - t.suffix.len()) as int) =~= Seq::<
        u8,
    >::empty());
    assert(spec_suffix_hint(Seq::<u8>::empty()) == Some(VersionHint::Bare));
    if sp != t.prefix {
        assert(t.prefix.len() == sp.len() + 1);
        assert(matches_pat(t.prefix, t.suffix, name) is None);
    }
}

/// A template decodes its own major-only link name back to the major.
proof fn lemma_tpl_decode_major(t: TemplateV, ma: u64)
    ensures
        tpl_decode(t, tpl_major(t, ma as nat)) == Some(VersionHint::Major(ma)),
{
    let name = tpl_major(t, ma as nat);
    let sp = short_prefix(t);
    let d = dec_render(ma as nat);
    lemma_dec_render_wf(ma as nat);
    lemma_dec_value_of_render(ma as nat);
    assert(name.len() == sp.len() + d.len() + t.suffix.len());
    assert(name.take(sp.len() as int) =~= sp);
    assert(name.skip((name.len() - t.suffix.len()) as int) =~= t.suffix);
    assert(name.subrange(sp.len() as int, (name.len() - t.suffix.len()) as int) =~= d);
    lemma_find_byte(d, 46);
    match find_byte(d, 46) {
        Option::Some(i) => {
            assert(is_ascii_digit(d[i]));
        },
        Option::None => {},
    }
    assert(spec_suffix_hint(d) == Some(VersionHint::Major(ma)));
    if sp != t.prefix {
        // the dash-keeping pattern misses: a digit stands where the dash is
        assert(t.prefix.len() == sp.len() + 1 && t.prefix[sp.len() as int] == 45);
        if name.len() >= t.prefix.len() + t.suffix.len() && name.take(t.prefix.len() as int)
            == t.prefix {
            assert(name.take(t.prefix.len() as int)[sp.len() as int] == name[sp.len() as int]);
            assert(name[sp.len() as int] == (sp + d)[sp.len() as int]);
            assert((sp + d)[sp.len() as int] == d[0]);
            assert(is_ascii_digit(d[0]));
        }
        assert(matches_pat(t.prefix, t.suffix, name) is None);
    }
}

/// A template decodes its own version-qualified name back to its digits.
proof fn lemma_tpl_decode_source(t: TemplateV, ma: u64, mi: u64)
    ensures
        tpl_decode(t, tpl_source(t, ma as nat, mi as nat)) == Some(
            VersionHint::MajorMinor(ma, mi),
        ),
{
    let name = tpl_source(t, ma as nat, mi as nat);
    let d = dec_render(ma as nat);
    let e = dec_render(mi as nat);
    lemma_dec_render_wf(ma as nat);
    lemma_dec_render_wf(mi as nat);
    lemma_dec_value_of_render(ma as nat);
    lemma_dec_value_of_render(mi as nat);
    assert(name.len() == t.prefix.len() + d.len() + 1 + e.len() + t.suffix.len());
    assert(name.take(t.prefix.len() as int) =~= t.prefix);
    assert(name.skip((name.len() - t.suffix.len()) as int) =~= t.suffix);
    let m = name.subrange(t.prefix.len() as int, (name.len() - t.suffix.len()) as int);
    assert(m =~= d + seq![46u8] + e);
    assert(m[d.len() as int] == 46);
    assert(forall|x: int| 0 <= x < d.len() ==> #[trigger] m[x] == d[x]);
    lemma_find_byte(m, 46);
    match find_byte(m, 46) {
        Option::None => {
            assert(m[d.len() as int] != 46);
        },
        Option::Some(i) => {
            if i < d.len() {
                assert(m[i] == d[i] && is_ascii_digit(d[i]));
            } else if i > d.len() {
                assert(m[d.len() as int] != 46);
            }
            assert(i == d.len());
            assert(m.take(i) =~= d);
            assert(m.skip(i + 1) =~= e);
            lemma_find_byte(e, 46);
            match find_byte(e, 46) {
                Option::Some(x) => {
                    assert(is_ascii_digit(e[x]));
                },
                Option::None => {},
            }
            assert(spec_suffix_hint(m) == Some(VersionHint::MajorMinor(ma, mi)));
        },
    }
}

/// The scan lands on template `i` when everything before it misses.
proof fn lemma_scan_hits(ts: Seq<TemplateV>, name: Seq<u8>, i: int)
    requires
        0 <= i < ts.len(),
        forall|j: int| 0 <= j < i ==> tpl_decode(#[trigger] ts[j], name) is None,
        tpl_decode(ts[i], name) is Some,
    ensures
        scan_templates(ts, name) == Some((tpl_bare(ts[i]), tpl_decode(ts[i], name)->Some_0)),
    decreases i,
{
    if i > 0 {
        assert(tpl_decode(ts[0], name) is None);
        assert(ts.drop_first()[i - 1] == ts[i]);
        assert(forall|j: int| 0 <= j < i - 1 ==> #[trigger] ts.drop_first()[j] == ts[j + 1]);
        lemma_scan_hits(ts.drop_first(), name, i - 1);
    }
}

#[verifier::rlimit(100)]
proof fn lemma_rt0_bare(ma: u64, mi: u64)
    ensures
        spec_identify(tpl_bare(spec_templates()[0])) == Some(
            (tpl_bare(spec_templates()[0]), VersionHint::Bare),
        ),
{
    let ts = spec_templates();
    let t = ts[0];
    lemma_built_name_facts(t, ma, mi);
    lemma_tpl_decode_bare(t);
    let nm = tpl_bare(t);
    lemma_scan_hits(ts, nm, 0);
}

#[verifier::rlimit(100)]
proof fn lemma_rt0_major(ma: u64, mi: u64)
    ensures
        spec_identify(tpl_major(spec_templates()[0], ma as nat)) == Some(
            (tpl_bare(spec_templates()[0]), VersionHint::Major(ma)),
        ),
{
    let ts = spec_templates();
    let t = ts[0];
    lemma_built_name_facts(t, ma, mi);
    lemma_tpl_decode_major(t, ma);
    let nm = tpl_major(t, ma as nat);
    lemma_scan_hits(ts, nm, 0);
}

#[verifier::rlimit(100)]
proof fn lemma_rt0_source(ma: u64, mi: u64)
    ensures
        spec_identify(tpl_source(spec_templates()[0], ma as nat, mi as nat)) == Some(
            (tpl_bare(spec_templates()[0]), VersionHint::MajorMinor(ma, mi)),
        ),
{
    let ts = spec_templates();
    let t = ts[0];
    lemma_built_name_facts(t, ma, mi);
    lemma_tpl_decode_source(t, ma, mi);
    let nm = tpl_source(t, ma as nat, mi as nat);
    lemma_scan_hits(ts, nm, 0);
}

proof fn lemma_round_trip_at_0(ma: u64, mi: u64)
    ensures
        spec_identify(tpl_bare(spec_templates()[0])) == Some(
            (tpl_bare(spec_templates()[0]), VersionHint::Bare),
        ),
        spec_identify(tpl_major(spec_templates()[0], ma as nat)) == Some(
            (tpl_bare(spec_templates()[0]), VersionHint::Major(ma)),
        ),
        spec_identify(tpl_source(spec_templates()[0], ma as nat, mi as nat)) == Some(
            (tpl_bare(spec_templates()[0]), VersionHint::MajorMinor(ma, mi)),
        ),
{
    lemma_rt0_bare(ma, mi);
    lemma_rt0_major(ma, mi);
    lemma_rt0_source(ma, mi);
}

#[verifier::rlimit(100)]
proof fn lemma_rt1_bare(ma: u64, mi: u64)
    ensures
        spec_identify(tpl_bare(spec_templates()[1])) == Some(
            (tpl_bare(spec_templates()[1]), VersionHint::Bare),
        ),
{
    let ts = spec_templates();
    let t = ts[1];
    lemma_built_name_facts(t, ma, mi);
    lemma_tpl_decode_bare(t);
    let nm = tpl_bare(t);
    assert forall|j: int| 0 <= j < 1 implies tpl_decode(#[trigger] ts[j], nm) is None by {
        lemma_tpl_none_byte(ts[0], nm, 0);
    }
    lemma_scan_hits(ts, nm, 1);
}

#[verifier::rlimit(100)]
proof fn lemma_rt1_major(ma: u64, mi: u64)
    ensures
        spec_identify(tpl_major(spec_templates()[1], ma as nat)) == Some(
            (tpl_bare(spec_templates()[1]), VersionHint::Major(ma)),
        ),
{
    let ts = spec_templates();
    let t = ts[1];
    lemma_built_name_facts(t, ma, mi);
    lemma_tpl_decode_major(t, ma);
    let nm = tpl_major(t, ma as nat);
    assert forall|j: int| 0 <= j < 1 implies tpl_decode(#[trigger] ts[j], nm) is None by {
        lemma_tpl_none_byte(ts[0], nm, 0);
    }
    lemma_scan_hits(ts, nm, 1);
}

#[verifier::rlimit(100)]
proof fn lemma_rt1_source(ma: u64, mi: u64)
    ensures
        spec_identify(tpl_source(spec_templates()[1], ma as nat, mi as nat)) == Some(
            (tpl_bare(spec_templates()[1]), VersionHint::MajorMinor(ma, mi)),
        ),
{
    let ts = spec_templates();
    let t = ts[1];
    lemma_built_name_facts(t, ma, mi);
    lemma_tpl_decode_source(t, ma, mi);
    let nm = tpl_source(t, ma as nat, mi as nat);
    assert forall|j: int| 0 <= j < 1 implies tpl_decode(#[trigger] ts[j], nm) is None by {
        lemma_tpl_none_byte(ts[0], nm, 0);
    }
    lemma_scan_hits(ts, nm, 1);
}

proof fn lemma_round_trip_at_1(ma: u64, mi: u64)
    ensures
        spec_identify(tpl_bare(spec_templates()[1])) == Some(
            (tpl_bare(spec_templates()[1]), VersionHint::Bare),
        ),
        spec_identify(tpl_major(spec_templates()[1], ma as nat)) == Some(
            (tpl_bare(spec_templates()[1]), VersionHint::Major(ma)),
        ),
        spec_identify(tpl_source(spec_templates()[1], ma as nat, mi as nat)) == Some(
            (tpl_bare(spec_templates()[1]), VersionHint::MajorMinor(ma, mi)),
        ),
{
    lemma_rt1_bare(ma, mi);
    lemma_rt1_major(ma, mi);
    lemma_rt1_source(ma, mi);
}

#[verifier::rlimit(100)]
proof fn lemma_rt2_bare(ma: u64, mi: u64)
    ensures
        spec_identify(tpl_bare(spec_templates()[2])) == Some(
            (tpl_bare(spec_templates()[2]), VersionHint::Bare),
        ),
{
    let ts = spec_templates();
    let t = ts[2];
    lemma_built_name_facts(t, ma, mi);
    lemma_tpl_decode_bare(t);
    let nm = tpl_bare(t);
    assert forall|j: int| 0 <= j < 2 implies tpl_decode(#[trigger] ts[j], nm) is None by {
        if j == 0 {
            lemma_tpl_none_byte(ts[0], nm, 0);
        } else {
            lemma_tpl_none_byte(ts[1], nm, 0);
        }
    }
    lemma_scan_hits(ts, nm, 2);
}

#[verifier::rlimit(100)]
proof fn lemma_rt2_major(ma: u64, mi: u64)
    ensures
        spec_identify(tpl_major(spec_templates()[2], ma as nat)) == Some(
            (tpl_bare(spec_templates()[2]), VersionHint::Major(ma)),
        ),
{
    let ts = spec_templates();
    let t = ts[2];
    lemma_built_name_facts(t, ma, mi);
    lemma_tpl_decode_major(t, ma);
    let nm = tpl_major(t, ma as nat);
    assert forall|j: int| 0 <= j < 2 implies tpl_decode(#[trigger] ts[j], nm) is None by {
        if j == 0 {
            lemma_tpl_none_byte(ts[0], nm, 0);
        } else {
            lemma_tpl_none_byte(ts[1], nm, 0);
        }
    }
    lemma_scan_hits(ts, nm, 2);
}

#[verifier::rlimit(100)]
proof fn lemma_rt2_source(ma: u64, mi: u64)
    ensures
        spec_identify(tpl_source(spec_templates()[2], ma as nat, mi as nat)) == Some(
            (tpl_bare(spec_templates()[2]), VersionHint::MajorMinor(ma, mi)),
        ),
{
    let ts = spec_templates();
    let t = ts[2];
    lemma_built_name_facts(t, ma, mi);
    lemma_tpl_decode_source(t, ma, mi);
    let nm = tpl_source(t, ma as nat, mi as nat);
    assert forall|j: int| 0 <= j < 2 implies tpl_decode(#[trigger] ts[j], nm) is None by {
        if j == 0 {
            lemma_tpl_none_byte(ts[0], nm, 0);
        } else {
            lemma_tpl_none_byte(ts[1], nm, 0);
        }
    }
    lemma_scan_hits(ts, nm, 2);
}

proof fn lemma_round_trip_at_2(ma: u64, mi: u64)
    ensures
        spec_identify(tpl_bare(spec_templates()[2])) == Some(
            (tpl_bare(spec_templates()[2]), VersionHint::Bare),
        ),
        spec_identify(tpl_major(spec_templates()[2], ma as nat)) == Some(
            (tpl_bare(spec_templates()[2]), VersionHint::Major(ma)),
        ),
        spec_identify(tpl_source(spec_templates()[2], ma as nat, mi as nat)) == Some(
            (tpl_bare(spec_templates()[2]), VersionHint::MajorMinor(ma, mi)),
        ),
{
    lemma_rt2_bare(ma, mi);
    lemma_rt2_major(ma, mi);
    lemma_rt2_source(ma, mi);
}

#[verifier::rlimit(100)]
proof fn lemma_rt3_bare(ma: u64, mi: u64)
    ensures
        spec_identify(tpl_bare(spec_templates()[3])) == Some(
            (tpl_bare(spec_templates()[3]), VersionHint::Bare),
        ),
{
    let ts = spec_templates();
    let t = ts[3];
    lemma_built_name_facts(t, ma, mi);
    lemma_tpl_decode_bare(t);
    let nm = tpl_bare(t);
    assert forall|j: int| 0 <= j < 3 implies tpl_decode(#[trigger] ts[j], nm) is None by {
        if j == 0 {
            lemma_tpl_none_byte(ts[0], nm, 0);
        } else if j == 1 {
            lemma_tpl_none_byte(ts[1], nm, 0);
        } else {
            lemma_tpl_none_byte(ts[2], nm, 1);
        }
    }
    lemma_scan_hits(ts, nm, 3);
}

#[verifier::rlimit(100)]
proof fn lemma_rt3_major(ma: u64, mi: u64)
    ensures
        spec_identify(tpl_major(spec_templates()[3], ma as nat)) == Some(
            (tpl_bare(spec_templates()[3]), VersionHint::Major(ma)),
        ),
{
    let ts = spec_templates();
    let t = ts[3];
    lemma_built_name_facts(t, ma, mi);
    lemma_tpl_decode_major(t, ma);
    let nm = tpl_major(t, ma as nat);
    assert forall|j: int| 0 <= j < 3 implies tpl_decode(#[trigger] ts[j], nm) is None by {
        if j == 0 {
            lemma_tpl_none_byte(ts[0], nm, 0);
        } else if j == 1 {
            lemma_tpl_none_byte(ts[1], nm, 0);
        } else {
            lemma_tpl_none_byte(ts[2], nm, 1);
        }
    }
    lemma_scan_hits(ts, nm, 3);
}

#[verifier::rlimit(100)]
proof fn lemma_rt3_source(ma: u64, mi: u64)
    ensures
        spec_identify(tpl_source(spec_templates()[3], ma as nat, mi as nat)) == Some(
            (tpl_bare(spec_templates()[3]), VersionHint::MajorMinor(ma, mi)),
        ),
{
    let ts = spec_templates();
    let t = ts[3];
    lemma_built_name_facts(t, ma, mi);
    lemma_tpl_decode_source(t, ma, mi);
    let nm = tpl_source(t, ma as nat, mi as nat);
    assert forall|j: int| 0 <= j < 3 implies tpl_decode(#[trigger] ts[j], nm) is None by {
        if j == 0 {
            lemma_tpl_none_byte(ts[0], nm, 0);
        } else if j == 1 {
            lemma_tpl_none_byte(ts[1], nm, 0);
        } else {
            lemma_tpl_none_byte(ts[2], nm, 1);
        }
    }
    lemma_scan_hits(ts, nm, 3);
}

proof fn lemma_round_trip_at_3(ma: u64, mi: u64)
    ensures
        spec_identify(tpl_bare(spec_templates()[3])) == Some(
            (tpl_bare(spec_templates()[3]), VersionHint::Bare),
        ),
        spec_identify(tpl_major(spec_templates()[3], ma as nat)) == Some(
            (tpl_bare(spec_templates()[3]), VersionHint::Major(ma)),
        ),
        spec_identify(tpl_source(spec_templates()[3], ma as nat, mi as nat)) == Some(
            (tpl_bare(spec_templates()[3]), VersionHint::MajorMinor(ma, mi)),
        ),
{
    lemma_rt3_bare(ma, mi);
    lemma_rt3_major(ma, mi);
    lemma_rt3_source(ma, mi);
}

#[verifier::rlimit(100)]
proof fn lemma_rt4_bare(ma: u64, mi: u64)
    ensures
        spec_identify(tpl_bare(spec_templates()[4])) == Some(
            (tpl_bare(spec_templates()[4]), VersionHint::Bare),
        ),
{
    let ts = spec_templates();
    let t = ts[4];
    lemma_built_name_facts(t, ma, mi);
    lemma_tpl_decode_bare(t);
    let nm = tpl_bare(t);
    assert forall|j: int| 0 <= j < 4 implies tpl_decode(#[trigger] ts[j], nm) is None by {
        if j == 0 {
            lemma_tpl_none_byte(ts[0], nm, 0);
        } else if j == 1 {
            lemma_tpl_none_byte(ts[1], nm, 0);
        } else if j == 2 {
            lemma_tpl_none_byte(ts[2], nm, 1);
        } else {
            lemma_tpl_none_byte(ts[3], nm, 2);
        }
    }
    lemma_scan_hits(ts, nm, 4);
}

#[verifier::rlimit(100)]
proof fn lemma_rt4_major(ma: u64, mi: u64)
    ensures
        spec_identify(tpl_major(spec_templates()[4], ma as nat)) == Some(
            (tpl_bare(spec_templates()[4]), VersionHint::Major(ma)),
        ),
{
    let ts = spec_templates();
    let t = ts[4];
    lemma_built_name_facts(t, ma, mi);
    lemma_tpl_decode_major(t, ma);
    let nm = tpl_major(t, ma as nat);
    assert forall|j: int| 0 <= j < 4 implies tpl_decode(#[trigger] ts[j], nm) is None by {
        if j == 0 {
            lemma_tpl_none_byte(ts[0], nm, 0);
        } else if j == 1 {
            lemma_tpl_none_byte(ts[1], nm, 0);
        } else if j == 2 {
            lemma_tpl_none_byte(ts[2], nm, 1);
        } else {
            lemma_tpl_none_byte(ts[3], nm, 2);
        }
    }
    lemma_scan_hits(ts, nm, 4);
}

#[verifier::rlimit(100)]
proof fn lemma_rt4_source(ma: u64, mi: u64)
    ensures
        spec_identify(tpl_source(spec_templates()[4], ma as nat, mi as nat)) == Some(
            (tpl_bare(spec_templates()[4]), VersionHint::MajorMinor(ma, mi)),
        ),
{
    let ts = spec_templates();
    let t = ts[4];
    lemma_built_name_facts(t, ma, mi);
    lemma_tpl_decode_source(t, ma, mi);
    let nm = tpl_source(t, ma as nat, mi as nat);
    assert forall|j: int| 0 <= j < 4 implies tpl_decode(#[trigger] ts[j], nm) is None by {
        if j == 0 {
            lemma_tpl_none_byte(ts[0], nm, 0);
        } else if j == 1 {
            lemma_tpl_none_byte(ts[1], nm, 0);
        } else if j == 2 {
            lemma_tpl_none_byte(ts[2], nm, 1);
        } else {
            lemma_tpl_none_byte(ts[3], nm, 2);
        }
    }
    lemma_scan_hits(ts, nm, 4);
}

proof fn lemma_round_trip_at_4(ma: u64, mi: u64)
    ensures
        spec_identify(tpl_bare(spec_templates()[4])) == Some(
            (tpl_bare(spec_templates()[4]), VersionHint::Bare),
        ),
        spec_identify(tpl_major(spec_templates()[4], ma as nat)) == Some(
            (tpl_bare(spec_templates()[4]), VersionHint::Major(ma)),
        ),
        spec_identify(tpl_source(spec_templates()[4], ma as nat, mi as nat)) == Some(
            (tpl_bare(spec_templates()[4]), VersionHint::MajorMinor(ma, mi)),
        ),
{
    lemma_rt4_bare(ma, mi);
    lemma_rt4_major(ma, mi);
    lemma_rt4_source(ma, mi);
}

#[verifier::rlimit(100)]
proof fn lemma_rt5_bare(ma: u64, mi: u64)
    ensures
        spec_identify(tpl_bare(spec_templates()[5])) == Some(
            (tpl_bare(spec_templates()[5]), VersionHint::Bare),
        ),
{
    let ts = spec_templates();
    let t = ts[5];
    lemma_built_name_facts(t, ma, mi);
    lemma_tpl_decode_bare(t);
    let nm = tpl_bare(t);
    assert(short_prefix(ts[4]) == ts[4].prefix);
    assert forall|j: int| 0 <= j < 5 implies tpl_decode(#[trigger] ts[j], nm) is None by {
        if j == 0 {
            lemma_tpl_none_byte(ts[0], nm, 0);
        } else if j == 1 {
            lemma_tpl_none_byte(ts[1], nm, 0);
        } else if j == 2 {
            lemma_tpl_none_byte(ts[2], nm, 1);
        } else if j == 3 {
            lemma_tpl_none_byte(ts[3], nm, 2);
        } else {
            lemma_tpl_none_trailing(ts[4], nm);
        }
    }
    lemma_scan_hits(ts, nm, 5);
}

#[verifier::rlimit(100)]
proof fn lemma_rt5_major(ma: u64, mi: u64)
    ensures
        spec_identify(tpl_major(spec_templates()[5], ma as nat)) == Some(
            (tpl_bare(spec_templates()[5]), VersionHint::Major(ma)),
        ),
{
    let ts = spec_templates();
    let t = ts[5];
    lemma_built_name_facts(t, ma, mi);
    lemma_tpl_decode_major(t, ma);
    let nm = tpl_major(t, ma as nat);
    assert(short_prefix(ts[4]) == ts[4].prefix);
    assert forall|j: int| 0 <= j < 5 implies tpl_decode(#[trigger] ts[j], nm) is None by {
        if j == 0 {
            lemma_tpl_none_byte(ts[0], nm, 0);
        } else if j == 1 {
            lemma_tpl_none_byte(ts[1], nm, 0);
        } else if j == 2 {
            lemma_tpl_none_byte(ts[2], nm, 1);
        } else if j == 3 {
            lemma_tpl_none_byte(ts[3], nm, 2);
        } else {
            lemma_tpl_none_trailing(ts[4], nm);
        }
    }
    lemma_scan_hits(ts, nm, 5);
}

#[verifier::rlimit(100)]
proof fn lemma_rt5_source(ma: u64, mi: u64)
    ensures
        spec_identify(tpl_source(spec_templates()[5], ma as nat, mi as nat)) == Some(
            (tpl_bare(spec_templates()[5]), VersionHint::MajorMinor(ma, mi)),
        ),
{
    let ts = spec_templates();
    let t = ts[5];
    lemma_built_name_facts(t, ma, mi);
    lemma_tpl_decode_source(t, ma, mi);
    let nm = tpl_source(t, ma as nat, mi as nat);
    assert(short_prefix(ts[4]) == ts[4].prefix);
    assert forall|j: int| 0 <= j < 5 implies tpl_decode(#[trigger] ts[j], nm) is None by {
        if j == 0 {
            lemma_tpl_none_byte(ts[0], nm, 0);
        } else if j == 1 {
            lemma_tpl_none_byte(ts[1], nm, 0);
        } else if j == 2 {
            lemma_tpl_none_byte(ts[2], nm, 1);
        } else if j == 3 {
            lemma_tpl_none_byte(ts[3], nm, 2);
        } else {
            lemma_tpl_none_trailing(ts[4], nm);
        }
    }
    lemma_scan_hits(ts, nm, 5);
}

proof fn lemma_round_trip_at_5(ma: u64, mi: u64)
    ensures
        spec_identify(tpl_bare(spec_templates()[5])) == Some(
            (tpl_bare(spec_templates()[5]), VersionHint::Bare),
        ),
        spec_identify(tpl_major(spec_templates()[5], ma as nat)) == Some(
            (tpl_bare(spec_templates()[5]), VersionHint::Major(ma)),
        ),
        spec_identify(tpl_source(spec_templates()[5], ma as nat, mi as nat)) == Some(
            (tpl_bare(spec_templates()[5]), VersionHint::MajorMinor(ma, mi)),
        ),
{
    lemma_rt5_bare(ma, mi);
    lemma_rt5_major(ma, mi);
    lemma_rt5_source(ma, mi);
}

#[verifier::rlimit(100)]
proof fn lemma_rt6_bare(ma: u64, mi: u64)
    ensures
        spec_identify(tpl_bare(spec_templates()[6])) == Some(
            (tpl_bare(spec_templates()[6]), VersionHint::Bare),
        ),
{
    let ts = spec_templates();
    let t = ts[6];
    lemma_built_name_facts(t, ma, mi);
    lemma_tpl_decode_bare(t);
    let nm = tpl_bare(t);
    assert(short_prefix(ts[4]) == ts[4].prefix);
    assert forall|j: int| 0 <= j < 6 implies tpl_decode(#[trigger] ts[j], nm) is None by {
        if j == 0 {
            lemma_tpl_none_byte(ts[0], nm, 0);
        } else if j == 1 {
            lemma_tpl_none_byte(ts[1], nm, 0);
        } else if j == 2 {
            lemma_tpl_none_byte(ts[2], nm, 1);
        } else if j == 3 {
            lemma_tpl_none_byte(ts[3], nm, 2);
        } else if j == 4 {
            lemma_tpl_none_trailing(ts[4], nm);
        } else {
            lemma_tpl_none_last(ts[5], nm);
        }
    }
    lemma_scan_hits(ts, nm, 6);
}

#[verifier::rlimit(100)]
proof fn lemma_rt6_major(ma: u64, mi: u64)
    ensures
        spec_identify(tpl_major(spec_templates()[6], ma as nat)) == Some(
            (tpl_bare(spec_templates()[6]), VersionHint::Major(ma)),
        ),
{
    let ts = spec_templates();
    let t = ts[6];
    lemma_built_name_facts(t, ma, mi);
    lemma_tpl_decode_major(t, ma);
    let nm = tpl_major(t, ma as nat);
    assert(short_prefix(ts[4]) == ts[4].prefix);
    assert forall|j: int| 0 <= j < 6 implies tpl_decode(#[trigger] ts[j], nm) is None by {
        if j == 0 {
            lemma_tpl_none_byte(ts[0], nm, 0);
        } else if j == 1 {
            lemma_tpl_none_byte(ts[1], nm, 0);
        } else if j == 2 {
            lemma_tpl_none_byte(ts[2], nm, 1);
        } else if j == 3 {
            lemma_tpl_none_byte(ts[3], nm, 2);
        } else if j == 4 {
            lemma_tpl_none_trailing(ts[4], nm);
        } else {
            lemma_tpl_none_last(ts[5], nm);
        }
    }
    lemma_scan_hits(ts, nm, 6);
}

#[verifier::rlimit(100)]
proof fn lemma_rt6_source(ma: u64, mi: u64)
    ensures
        spec_identify(tpl_source(spec_templates()[6], ma as nat, mi as nat)) == Some(
            (tpl_bare(spec_templates()[6]), VersionHint::MajorMinor(ma, mi)),
        ),
{
    let ts = spec_templates();
    let t = ts[6];
    lemma_built_name_facts(t, ma, mi);
    lemma_tpl_decode_source(t, ma, mi);
    let nm = tpl_source(t, ma as nat, mi as nat);
    assert(short_prefix(ts[4]) == ts[4].prefix);
    assert forall|j: int| 0 <= j < 6 implies tpl_decode(#[trigger] ts[j], nm) is None by {
        if j == 0 {
            lemma_tpl_none_byte(ts[0], nm, 0);
        } else if j == 1 {
            lemma_tpl_none_byte(ts[1], nm, 0);
        } else if j == 2 {
            lemma_tpl_none_byte(ts[2], nm, 1);
        } else if j == 3 {
            lemma_tpl_none_byte(ts[3], nm, 2);
        } else if j == 4 {
            lemma_tpl_none_trailing(ts[4], nm);
        } else {
            lemma_tpl_none_last(ts[5], nm);
        }
    }
    lemma_scan_hits(ts, nm, 6);
}

proof fn lemma_round_trip_at_6(ma: u64, mi: u64)
    ensures
        spec_identify(tpl_bare(spec_templates()[6])) == Some(
            (tpl_bare(spec_templates()[6]), VersionHint::Bare),
        ),
        spec_identify(tpl_major(spec_templates()[6], ma as nat)) == Some(
            (tpl_bare(spec_templates()[6]), VersionHint::Major(ma)),
        ),
        spec_identify(tpl_source(spec_templates()[6], ma as nat, mi as nat)) == Some(
            (tpl_bare(spec_templates()[6]), VersionHint::MajorMinor(ma, mi)),
        ),
{
    lemma_rt6_bare(ma, mi);
    lemma_rt6_major(ma, mi);
    lemma_rt6_source(ma, mi);
}

#[verifier::rlimit(100)]
proof fn lemma_rt7_bare(ma: u64, mi: u64)
    ensures
        spec_identify(tpl_bare(spec_templates()[7])) == Some(
            (tpl_bare(spec_templates()[7]), VersionHint::Bare),
        ),
{
    let ts = spec_templates();
    let t = ts[7];
    lemma_built_name_facts(t, ma, mi);
    lemma_tpl_decode_bare(t);
    let nm = tpl_bare(t);
    assert forall|j: int| 0 <= j < 7 implies tpl_decode(#[trigger] ts[j], nm) is None by {
        if j == 0 {
            lemma_tpl_none_byte(ts[0], nm, 0);
        } else if j == 1 {
            lemma_tpl_none_byte(ts[1], nm, 0);
        } else if j == 2 {
            lemma_tpl_none_byte(ts[2], nm, 1);
        } else if j == 3 {
            lemma_tpl_none_byte(ts[3], nm, 2);
        } else if j == 4 {
            lemma_tpl_none_byte(ts[4], nm, 2);
        } else if j == 5 {
            lemma_tpl_none_byte(ts[5], nm, 2);
        } else {
            lemma_tpl_none_byte(ts[6], nm, 2);
        }
    }
    lemma_scan_hits(ts, nm, 7);
}

#[verifier::rlimit(100)]
proof fn lemma_rt7_major(ma: u64, mi: u64)
    ensures
        spec_identify(tpl_major(spec_templates()[7], ma as nat)) == Some(
            (tpl_bare(spec_templates()[7]), VersionHint::Major(ma)),
        ),
{
    let ts = spec_templates();
    let t = ts[7];
    lemma_built_name_facts(t, ma, mi);
    lemma_tpl_decode_major(t, ma);
    let nm = tpl_major(t, ma as nat);
    assert forall|j: int| 0 <= j < 7 implies tpl_decode(#[trigger] ts[j], nm) is None by {
        if j == 0 {
            lemma_tpl_none_byte(ts[0], nm, 0);
        } else if j == 1 {
            lemma_tpl_none_byte(ts[1], nm, 0);
        } else if j == 2 {
            lemma_tpl_none_byte(ts[2], nm, 1);
        } else if j == 3 {
            lemma_tpl_none_byte(ts[3], nm, 2);
        } else if j == 4 {
            lemma_tpl_none_byte(ts[4], nm, 2);
        } else if j == 5 {
            lemma_tpl_none_byte(ts[5], nm, 2);
        } else {
            lemma_tpl_none_byte(ts[6], nm, 2);
        }
    }
    lemma_scan_hits(ts, nm, 7);
}

#[verifier::rlimit(100)]
proof fn lemma_rt7_source(ma: u64, mi: u64)
    ensures
        spec_identify(tpl_source(spec_templates()[7], ma as nat, mi as nat)) == Some(
            (tpl_bare(spec_templates()[7]), VersionHint::MajorMinor(ma, mi)),
        ),
{
    let ts = spec_templates();
    let t = ts[7];
    lemma_built_name_facts(t, ma, mi);
    lemma_tpl_decode_source(t, ma, mi);
    let nm = tpl_source(t, ma as nat, mi as nat);
    assert forall|j: int| 0 <= j < 7 implies tpl_decode(#[trigger] ts[j], nm) is None by {
        if j == 0 {
            lemma_tpl_none_byte(ts[0], nm, 0);
        } else if j == 1 {
            lemma_tpl_none_byte(ts[1], nm, 0);
        } else if j == 2 {
            lemma_tpl_none_byte(ts[2], nm, 1);
        } else if j == 3 {
            lemma_tpl_none_byte(ts[3], nm, 2);
        } else if j == 4 {
            lemma_tpl_none_byte(ts[4], nm, 2);
        } else if j == 5 {
            lemma_tpl_none_byte(ts[5], nm, 2);
        } else {
            lemma_tpl_none_byte(ts[6], nm, 2);
        }
    }
    lemma_scan_hits(ts, nm, 7);
}

proof fn lemma_round_trip_at_7(ma: u64, mi: u64)
    ensures
        spec_identify(tpl_bare(spec_templates()[7])) == Some(
            (tpl_bare(spec_templates()[7]), VersionHint::Bare),
        ),
        spec_identify(tpl_major(spec_templates()[7], ma as nat)) == Some(
            (tpl_bare(spec_templates()[7]), VersionHint::Major(ma)),
        ),
        spec_identify(tpl_source(spec_templates()[7], ma as nat, mi as nat)) == Some(
            (tpl_bare(spec_templates()[7]), VersionHint::MajorMinor(ma, mi)),
        ),
{
    lemma_rt7_bare(ma, mi);
    lemma_rt7_major(ma, mi);
    lemma_rt7_source(ma, mi);
}

/// Alias round trip: every name the table builds for a toolchain — the
/// version-qualified source, the major-only link and the bare link — decodes
/// back to the same logical command and exactly the version digits it
/// carries, whatever the version.
pub proof fn lemma_alias_round_trip(ti: int, ma: u64, mi: u64)
    requires
        0 <= ti < spec_templates().len(),
    ensures
        spec_identify(tpl_bare(spec_templates()[ti])) == Some(
            (tpl_bare(spec_templates()[ti]), VersionHint::Bare),
        ),
        spec_identify(tpl_major(spec_templates()[ti], ma as nat)) == Some(
            (tpl_bare(spec_templates()[ti]), VersionHint::Major(ma)),
        ),
        spec_identify(tpl_source(spec_templates()[ti], ma as nat, mi as nat)) == Some(
            (tpl_bare(spec_templates()[ti]), VersionHint::MajorMinor(ma, mi)),
        ),
{
    if ti == 0 {
        lemma_round_trip_at_0(ma, mi);
    } else if ti == 1 {
        lemma_round_trip_at_1(ma, mi);
    } else if ti == 2 {
        lemma_round_trip_at_2(ma, mi);
    } else if ti == 3 {
        lemma_round_trip_at_3(ma, mi);
    } else if ti == 4 {
        lemma_round_trip_at_4(ma, mi);
    } else if ti == 5 {
        lemma_round_trip_at_5(ma, mi);
    } else if ti == 6 {
        lemma_round_trip_at_6(ma, mi);
    } else {
        lemma_round_trip_at_7(ma, mi);
    }
}

} // verus!
