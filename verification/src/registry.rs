//! The toolchain registry: the set of installed toolchains, lookup of the
//! best match for a requirement, idempotent registration, and the path of a
//! named binary inside a record's install directory.

use vstd::prelude::*;

use crate::alias::{binaries_for, spec_binary_name, spec_templates};
use crate::digits::bytes_eq;
use crate::error::Error;
use crate::requirement::{req_matches, Requirement};
use crate::version::{
    lemma_version_lt_total, lemma_version_lt_trans, version_eq_exec, version_le, version_lt, version_lt_exec,
    Version, VersionV,
};

verus! {

/// One installed toolchain: its version, its install directory, the binary
/// basenames available under `<install_dir>/bin`, and whether this manager
/// built it (the provenance marker was present or written).
pub struct ToolchainRecord {
    pub version: Version,
    pub install_dir: Vec<u8>,
    pub binaries: Vec<Vec<u8>>,
    pub installed_by_self: bool,
}

#[verifier::ext_equal]
pub ghost struct RecordV {
    pub version: VersionV,
    pub install_dir: Seq<u8>,
    pub binaries: Seq<Seq<u8>>,
    pub installed_by_self: bool,
}

impl View for ToolchainRecord {
    type V = RecordV;

    open spec fn view(&self) -> RecordV {
        RecordV {
            version: self.version@,
            install_dir: self.install_dir@,
            binaries: self.binaries.deep_view(),
            installed_by_self: self.installed_by_self,
        }
    }
}

/// Whether a table of byte strings holds `x`.
pub open spec fn contains_name(names: Seq<Seq<u8>>, x: Seq<u8>) -> bool {
    exists|j: int| 0 <= j < names.len() && names[j] == x
}

/// At most one record per version.
pub open spec fn registry_wf(s: Seq<RecordV>) -> bool {
    forall|i: int, j: int|
        0 <= i < j < s.len() ==> (#[trigger] s[i]).version != (#[trigger] s[j]).version
}

/// Registration: replace the record holding the same version, else append.
pub open spec fn spec_register(s: Seq<RecordV>, r: RecordV) -> Seq<RecordV>
    decreases s.len(),
{
    if s.len() == 0 {
        seq![r]
    } else if s[0].version == r.version {
        seq![r] + s.drop_first()
    } else {
        seq![s[0]] + spec_register(s.drop_first(), r)
    }
}

/// How many records hold the given version.
pub open spec fn count_version(s: Seq<RecordV>, v: VersionV) -> nat
    decreases s.len(),
{
    if s.len() == 0 {
        0
    } else {
        (if s[0].version == v {
            1nat
        } else {
            0nat
        }) + count_version(s.drop_first(), v)
    }
}

/// Registering replaces the record at the first index holding the version.
proof fn lemma_register_update(s: Seq<RecordV>, r: RecordV, i: int)
    requires
        0 <= i < s.len(),
        s[i].version == r.version,
        forall|j: int| 0 <= j < i ==> (#[trigger] s[j]).version != r.version,
    ensures
        spec_register(s, r) == s.update(i, r),
    decreases s.len(),
{
    if i == 0 {
        assert(seq![r] + s.drop_first() =~= s.update(0, r));
    } else {
        assert(s.drop_first()[i - 1] == s[i]);
        assert(forall|j: int|
            0 <= j < i - 1 ==> (#[trigger] s.drop_first()[j]).version != r.version) by {
            assert(forall|j: int| 0 <= j < i - 1 ==> s.drop_first()[j] == s[j + 1]);
        }
        lemma_register_update(s.drop_first(), r, i - 1);
        assert(seq![s[0]] + s.drop_first().update(i - 1, r) =~= s.update(i, r));
    }
}

/// Registering a version no record holds appends the record.
proof fn lemma_register_push(s: Seq<RecordV>, r: RecordV)
    requires
        forall|j: int| 0 <= j < s.len() ==> (#[trigger] s[j]).version != r.version,
    ensures
        spec_register(s, r) == s.push(r),
    decreases s.len(),
{
    if s.len() == 0 {
        assert(seq![r] =~= s.push(r));
    } else {
        assert(forall|j: int| 0 <= j < s.len() - 1 ==> s.drop_first()[j] == s[j + 1]);
        lemma_register_push(s.drop_first(), r);
        assert(seq![s[0]] + s.drop_first().push(r) =~= s.push(r));
    }
}

/// Counting a version no record holds gives zero.
proof fn lemma_count_zero(s: Seq<RecordV>, v: VersionV)
    requires
        forall|j: int| 0 <= j < s.len() ==> (#[trigger] s[j]).version != v,
    ensures
        count_version(s, v) == 0,
    decreases s.len(),
{
    if s.len() > 0 {
        assert(forall|j: int| 0 <= j < s.len() - 1 ==> s.drop_first()[j] == s[j + 1]);
        lemma_count_zero(s.drop_first(), v);
    }
}

/// In a well-formed registry, registering twice with the same record changes
/// nothing the second time, and leaves exactly one record for that version.
pub proof fn lemma_register_idempotent(s: Seq<RecordV>, r: RecordV)
    requires
        registry_wf(s),
    ensures
        count_version(spec_register(s, r), r.version) == 1,
        spec_register(spec_register(s, r), r) == spec_register(s, r),
    decreases s.len(),
{
    if s.len() == 0 {
        assert(spec_register(s, r) == seq![r]);
        assert(seq![r][0] == r);
        assert(seq![r].drop_first() =~= Seq::<RecordV>::empty());
        assert(count_version(Seq::<RecordV>::empty(), r.version) == 0);
        assert(count_version(seq![r], r.version) == 1);
        assert(seq![r] + seq![r].drop_first() =~= seq![r]);
    } else if s[0].version == r.version {
        let out = seq![r] + s.drop_first();
        assert(out[0] == r);
        assert(out.drop_first() =~= s.drop_first());
        assert(forall|j: int| 0 <= j < s.len() - 1 ==> s.drop_first()[j] == s[j + 1]);
        lemma_count_zero(s.drop_first(), r.version);
        assert(count_version(out, r.version) == 1 + count_version(out.drop_first(), r.version));
        assert(seq![r] + out.drop_first() =~= out);
    } else {
        assert(forall|j: int| 0 <= j < s.len() - 1 ==> s.drop_first()[j] == s[j + 1]);
        lemma_register_idempotent(s.drop_first(), r);
        let out = seq![s[0]] + spec_register(s.drop_first(), r);
        assert(out[0] == s[0]);
        assert(out.drop_first() =~= spec_register(s.drop_first(), r));
        assert(count_version(out, r.version) == count_version(out.drop_first(), r.version));
        assert(spec_register(out, r) == seq![s[0]] + spec_register(out.drop_first(), r));
        assert(spec_register(out.drop_first(), r) == spec_register(s.drop_first(), r));
        assert(seq![s[0]] + spec_register(s.drop_first(), r) == out);
    }
}


/// The binary basenames `register` records for a version: for each logical
/// command its bare, major-only and version-qualified name.
pub open spec fn spec_registered_binaries(ma: nat, mi: nat) -> Seq<Seq<u8>> {
    Seq::new(3 * spec_templates().len(), |j: int| spec_binary_name(j, ma, mi))
}

/// The record `register` creates for a version and install directory.
pub open spec fn spec_fresh_record(v: VersionV, ma: nat, mi: nat, dir: Seq<u8>) -> RecordV {
    RecordV {
        version: v,
        install_dir: dir,
        binaries: spec_registered_binaries(ma, mi),
        installed_by_self: true,
    }
}

/// The registry of installed toolchains. It owns the in-memory image of the
/// install root; one record per version.
pub struct Registry {
    records: Vec<ToolchainRecord>,
}

impl View for Registry {
    type V = Seq<RecordV>;

    closed spec fn view(&self) -> Seq<RecordV> {
        Seq::new(self.records@.len(), |i: int| self.records@[i]@)
    }
}

impl Registry {
    pub open spec fn wf(&self) -> bool {
        registry_wf(self@)
    }

    pub fn new() -> (r: Registry)
        ensures
            r@ == Seq::<RecordV>::empty(),
            r.wf(),
    {
        let r = Registry { records: Vec::new() };
        assert(r@ =~= Seq::<RecordV>::empty());
        r
    }

    /// Enumerate the installed toolchains.
    pub fn list(&self) -> (r: &Vec<ToolchainRecord>)
        ensures
            r@.len() == self@.len(),
            forall|i: int| 0 <= i < r@.len() ==> (#[trigger] r@[i])@ == self@[i],
    {
        &self.records
    }

    /// Add a record: the record holding the same version is replaced, else
    /// the record is appended. Idempotent.
    pub fn insert(&mut self, rec: ToolchainRecord)
        requires
            old(self).wf(),
        ensures
            final(self)@ == spec_register(old(self)@, rec@),
            final(self).wf(),
    {
        let ghost s = self@;
        let ghost rv = rec@;
        let n = self.records.len();
        let mut i: usize = 0;
        let mut fidx: Option<usize> = None;
        while i < n
            invariant
                i <= n == self.records@.len(),
                s == self@,
                rv == rec@,
                match fidx {
                    Some(k) => k < i && s[k as int].version == rv.version && forall|j: int|
                        0 <= j < k ==> (#[trigger] s[j]).version != rv.version,
                    None => forall|j: int| 0 <= j < i ==> (#[trigger] s[j]).version != rv.version,
                },
            decreases n - i,
        {
            if fidx.is_none() && version_eq_exec(&self.records[i].version, &rec.version) {
                proof {
                    assert(s[i as int] == self.records@[i as int]@);
                }
                fidx = Some(i);
            }
            i += 1;
        }
        if let Some(i) = fidx {
            proof {
                lemma_register_update(s, rv, i as int);
            }
            self.records.remove(i);
            self.records.insert(i, rec);
            assert(self@ =~= s.update(i as int, rv));
            assert forall|a: int, b: int| 0 <= a < b < self@.len() implies (
            #[trigger] self@[a]).version != (#[trigger] self@[b]).version by {
                assert(s[a] == self@[a] || a == i);
                assert(s[b] == self@[b] || b == i);
            }
        } else {
            proof {
                lemma_register_push(s, rv);
            }
            self.records.push(rec);
            assert(self@ =~= s.push(rv));
            assert forall|a: int, b: int| 0 <= a < b < self@.len() implies (
            #[trigger] self@[a]).version != (#[trigger] self@[b]).version by {
                assert(s[a] == self@[a]);
                assert(b == self@.len() - 1 || s[b] == self@[b]);
            }
        }
    }

    /// Register a toolchain this manager just built at `install_dir`: the
    /// record carries every alias-table basename and the self-built mark.
    pub fn register(&mut self, version: &Version, install_dir: &[u8])
        requires
            old(self).wf(),
        ensures
            final(self)@ == spec_register(
                old(self)@,
                spec_fresh_record(
                    version@,
                    version.major as nat,
                    version.minor as nat,
                    install_dir@,
                ),
            ),
            final(self).wf(),
    {
        let rec = ToolchainRecord {
            version: version.duplicate(),
            install_dir: crate::digits::copy_bytes(install_dir),
            binaries: binaries_for(version),
            installed_by_self: true,
        };
        proof {
            assert(rec@.binaries =~= spec_registered_binaries(
                version.major as nat,
                version.minor as nat,
            ));
            assert(rec@ =~= spec_fresh_record(
                version@,
                version.major as nat,
                version.minor as nat,
                install_dir@,
            ));
        }
        self.insert(rec);
    }

    /// Find the record whose version best satisfies the requirement: the
    /// maximum matching version; `None` exactly when none matches.
    pub fn find(&self, req: &Requirement) -> (r: Option<&ToolchainRecord>)
        ensures
            match r {
                Some(rec) => req_matches(req@, rec@.version) && (exists|i: int|
                    0 <= i < self@.len() && self@[i] == rec@) && (forall|i: int|
                    0 <= i < self@.len() && req_matches(req@, (#[trigger] self@[i]).version)
                        ==> version_le(self@[i].version, rec@.version)),
                None => forall|i: int|
                    0 <= i < self@.len() ==> !req_matches(req@, (#[trigger] self@[i]).version),
            },
    {
        let n = self.records.len();
        let mut bi: Option<usize> = None;
        let mut i: usize = 0;
        while i < n
            invariant
                i <= n == self.records@.len(),
                n == self@.len(),
                forall|j: int| 0 <= j < n ==> self@[j] == (#[trigger] self.records@[j])@,
                match bi {
                    Some(b) => b < i && req_matches(req@, self@[b as int].version) && (forall|
                        j: int,
                    |
                        0 <= j < i && req_matches(req@, (#[trigger] self@[j]).version)
                            ==> version_le(self@[j].version, self@[b as int].version)),
                    None => forall|j: int|
                        0 <= j < i ==> !req_matches(req@, (#[trigger] self@[j]).version),
                },
            decreases n - i,
        {
            if req.matches(&self.records[i].version) {
                match bi {
                    None => {
                        bi = Some(i);
                        proof {
                            lemma_version_lt_total(self@[i as int].version, self@[i as int].version);
                        }
                    },
                    Some(b) => {
                        if version_lt_exec(&self.records[b].version, &self.records[i].version) {
                            proof {
                                let bv = self@[b as int].version;
                                let iv = self@[i as int].version;
                                assert forall|j: int|
                                    0 <= j < i + 1 && req_matches(
                                        req@,
                                        (#[trigger] self@[j]).version,
                                    ) implies version_le(self@[j].version, iv) by {
                                    if j < i {
                                        let jv = self@[j].version;
                                        if version_lt(jv, bv) {
                                            lemma_version_lt_trans(jv, bv, iv);
                                        }
                                    }
                                }
                            }
                            bi = Some(i);
                        } else {
                            proof {
                                lemma_version_lt_total(
                                    self@[i as int].version,
                                    self@[b as int].version,
                                );
                            }
                        }
                    },
                }
            }
            i += 1;
        }
        match bi {
            Some(b) => Some(&self.records[b]),
            None => None,
        }
    }
}

/// The path of a named binary inside a record's install directory:
/// `<install_dir>/bin/<name>` when the record offers `name`, else
/// `BinaryMissing`.
pub fn binary_path(rec: &ToolchainRecord, name: &[u8]) -> (r: Result<Vec<u8>, Error>)
    ensures
        match r {
            Ok(p) => contains_name(rec@.binaries, name@) && p@ == rec@.install_dir + seq![
                47u8,
                98u8,
                105u8,
                110u8,
                47u8,
            ] + name@,
            Err(e) => !contains_name(rec@.binaries, name@) && match e {
                Error::BinaryMissing(n) => n@ == name@,
                _ => false,
            },
        },
{
    proof {
        crate::digits::lemma_deep_view_names(rec.binaries);
    }
    let n = rec.binaries.len();
    let mut i: usize = 0;
    let mut present = false;
    while i < n
        invariant
            i <= n == rec.binaries@.len(),
            rec@.binaries.len() == n,
            forall|j: int| 0 <= j < n ==> rec@.binaries[j] == (#[trigger] rec.binaries@[j])@,
            present ==> contains_name(rec@.binaries, name@),
            !present ==> forall|j: int| 0 <= j < i ==> rec@.binaries[j] != name@,
        decreases n - i,
    {
        if !present && bytes_eq(rec.binaries[i].as_slice(), name) {
            present = true;
        }
        i += 1;
    }
    if !present {
        return Err(Error::BinaryMissing(crate::digits::copy_bytes(name)));
    }
    let mut p = crate::digits::copy_bytes(rec.install_dir.as_slice());
    p.push(47u8);
    p.push(98u8);
    p.push(105u8);
    p.push(110u8);
    p.push(47u8);
    crate::digits::append_bytes(&mut p, name);
    assert(p@ =~= rec@.install_dir + seq![47u8, 98u8, 105u8, 110u8, 47u8] + name@);
    Ok(p)
}

} // verus!
