//! The shim dispatcher: invoked under an interpreter-family name, it decodes
//! that name, resolves the directory's requirement, finds the best installed
//! toolchain, locates the binary, and hands back an exec plan — the exact
//! binary path and the arguments, unchanged and in order. Every error is
//! fatal to the invocation; the shim never installs and never prompts.

use vstd::prelude::*;

use crate::alias::{identify, spec_identify};
use crate::digits::{copy_bytes, copy_range, lemma_deep_view_names};
use crate::error::Error;
use crate::registry::{binary_path, contains_name, RecordV, Registry};
use crate::requirement::{find_byte, lemma_find_byte, req_matches, spec_accepted_req, RequirementV};
use crate::resolver::{first_file_index, first_nonempty, resolve, ChainEntry, ChainEntryV};
use crate::version::version_le;

verus! {

/// What the dispatcher execs: the resolved binary and the forwarded
/// arguments. The environment and standard streams are inherited as they
/// are; only these two things are the dispatcher's to decide.
#[derive(Debug)]
pub struct ExecPlan {
    pub binary_path: Vec<u8>,
    pub args: Vec<Vec<u8>>,
}

/// The basename of an invoked program path: everything after the last `/`.
pub open spec fn basename_spec(p: Seq<u8>) -> Seq<u8>
    decreases p.len(),
    via basename_spec_dec
{
    match find_byte(p, 47) {
        Option::None => p,
        Option::Some(i) => basename_spec(p.skip(i + 1)),
    }
}

#[via_fn]
proof fn basename_spec_dec(p: Seq<u8>) {
    lemma_find_byte(p, 47);
}

proof fn lemma_basename_no_slash(p: Seq<u8>)
    requires
        forall|j: int| 0 <= j < p.len() ==> p[j] != 47,
    ensures
        basename_spec(p) == p,
{
    lemma_find_byte(p, 47);
    match find_byte(p, 47) {
        Option::Some(i) => {
            assert(p[i] != 47);
        },
        Option::None => {},
    }
}

proof fn lemma_basename_last_slash(p: Seq<u8>, k: int)
    requires
        0 <= k < p.len(),
        p[k] == 47,
        forall|j: int| k < j < p.len() ==> p[j] != 47,
    ensures
        basename_spec(p) == p.skip(k + 1),
    decreases p.len(),
{
    lemma_find_byte(p, 47);
    match find_byte(p, 47) {
        Option::None => {
            assert(p[k] != 47);
        },
        Option::Some(i) => {
            assert(i <= k);
            if i == k {
                assert(forall|j: int|
                    0 <= j < p.skip(k + 1).len() ==> #[trigger] p.skip(k + 1)[j] == p[k + 1 + j]);
                lemma_basename_no_slash(p.skip(k + 1));
            } else {
                let q = p.skip(i + 1);
                assert(q[k - i - 1] == p[k]);
                assert(forall|j: int| k - i - 1 < j < q.len() ==> #[trigger] q[j] == p[j + i + 1]);
                lemma_basename_last_slash(q, k - i - 1);
                assert(q.skip(k - i) =~= p.skip(k + 1));
            }
        },
    }
}

/// The requirement the source chain and default resolve to, when they
/// resolve to one.
pub open spec fn spec_resolved_req(c: Seq<ChainEntryV>, dflt: Option<Seq<u8>>) -> Option<
    RequirementV,
> {
    match first_file_index(c) {
        Option::Some(fi) => spec_accepted_req(first_nonempty(c[fi].file_lines->Some_0)),
        Option::None => match dflt {
            Option::Some(d) => spec_accepted_req(d),
            Option::None => Option::None,
        },
    }
}

/// A successful dispatch against requirement `q`: the plan's arguments are
/// the invocation's, unchanged and in order, and its binary path names the
/// invoked basename inside the best-matching toolchain's `bin` directory.
pub open spec fn spec_dispatched(
    q: RequirementV,
    base: Seq<u8>,
    reg: Seq<RecordV>,
    args: Seq<Seq<u8>>,
    r: Result<ExecPlan, Error>,
) -> bool {
    match r {
        Ok(plan) => plan.args.deep_view() == args && (exists|i: int|
            {
                &&& 0 <= i < reg.len()
                &&& req_matches(q, (#[trigger] reg[i]).version)
                &&& (forall|j: int|
                    0 <= j < reg.len() && req_matches(q, (#[trigger] reg[j]).version)
                        ==> version_le(reg[j].version, reg[i].version))
                &&& contains_name(reg[i].binaries, base)
                &&& plan.binary_path@ == reg[i].install_dir + seq![47u8, 98u8, 105u8, 110u8, 47u8]
                    + base
            }),
        Err(e) => match e {
            Error::ToolchainNotInstalled(rq) => rq@ == q && (forall|i: int|
                0 <= i < reg.len() ==> !req_matches(q, (#[trigger] reg[i]).version)),
            Error::BinaryMissing(nm) => nm@ == base && (exists|i: int|
                {
                    &&& 0 <= i < reg.len()
                    &&& req_matches(q, (#[trigger] reg[i]).version)
                    &&& (forall|j: int|
                        0 <= j < reg.len() && req_matches(q, (#[trigger] reg[j]).version)
                            ==> version_le(reg[j].version, reg[i].version))
                    &&& !contains_name(reg[i].binaries, base)
                }),
            _ => false,
        },
    }
}

/// Dispatch a shim invocation. Identify the logical command from the invoked
/// name's basename, resolve the requirement, match a toolchain, locate the
/// binary; on success the plan execs it with the arguments untouched. Errors
/// are exactly: `UnknownShimTarget` for an unrecognized basename, the
/// resolver's errors verbatim, `ToolchainNotInstalled` naming the
/// requirement when nothing matches, `BinaryMissing` when the matched
/// toolchain lacks the binary.
pub fn dispatch(
    invoked: &[u8],
    args: &Vec<Vec<u8>>,
    chain: &Vec<ChainEntry>,
    default_req: &Option<Vec<u8>>,
    registry: &Registry,
) -> (r: Result<ExecPlan, Error>)
    ensures
        ({
            let base = basename_spec(invoked@);
            let c = Seq::new(chain@.len(), |i: int| chain@[i]@);
            let dflt = match default_req {
                Option::Some(d) => Option::Some(d@),
                Option::None => Option::None,
            };
            match spec_identify(base) {
                Option::None => match r {
                    Err(Error::UnknownShimTarget(n)) => n@ == base,
                    _ => false,
                },
                Option::Some(_) => match spec_resolved_req(c, dflt) {
                    Option::Some(q) => spec_dispatched(q, base, registry@, args.deep_view(), r),
                    Option::None => match r {
                        Err(Error::InvalidRequirement(t)) => match first_file_index(c) {
                            Option::Some(fi) => t@ == first_nonempty(c[fi].file_lines->Some_0),
                            Option::None => dflt is Some && t@ == dflt->Some_0,
                        },
                        Err(Error::NoRequirementFound) => first_file_index(c) is None
                            && dflt is None,
                        _ => false,
                    },
                },
            }
        }),
{
    let n = invoked.len();
    let mut p: usize = n;
    while p > 0 && invoked[p - 1] != 47
        invariant
            p <= n == invoked@.len(),
            forall|j: int| p <= j < n ==> invoked@[j] != 47,
        decreases p,
    {
        p -= 1;
    }
    proof {
        if p == 0 {
            lemma_basename_no_slash(invoked@);
            assert(invoked@.subrange(0, n as int) =~= invoked@);
        } else {
            lemma_basename_last_slash(invoked@, p - 1);
            assert(invoked@.skip(p as int) =~= invoked@.subrange(p as int, n as int));
        }
    }
    let base = copy_range(invoked, p, n);
    assert(base@ == basename_spec(invoked@));
    // Identify.
    let sn = match identify(base.as_slice()) {
        Ok(sn) => sn,
        Err(e) => {
            return Err(e);
        },
    };
    // Resolve; errors propagate verbatim.
    let (req, _source) = match resolve(chain, default_req) {
        Ok(x) => x,
        Err(e) => {
            return Err(e);
        },
    };
    // Match.
    let rec = match registry.find(&req) {
        Some(rec) => rec,
        None => {
            return Err(Error::ToolchainNotInstalled(req));
        },
    };
    // Locate.
    let path = match binary_path(rec, base.as_slice()) {
        Ok(p) => p,
        Err(e) => {
            return Err(e);
        },
    };
    let fwd = copy_lines(args);
    Ok(ExecPlan { binary_path: path, args: fwd })
}

/// Copy an argument list unchanged.
fn copy_lines(v: &Vec<Vec<u8>>) -> (r: Vec<Vec<u8>>)
    ensures
        r.deep_view() == v.deep_view(),
{
    proof {
        lemma_deep_view_names(*v);
    }
    let mut r: Vec<Vec<u8>> = Vec::new();
    let n = v.len();
    let mut i: usize = 0;
    while i < n
        invariant
            i <= n == v@.len(),
            r@.len() == i,
            forall|j: int| 0 <= j < i ==> (#[trigger] r@[j])@ == v@[j]@,
        decreases n - i,
    {
        r.push(copy_bytes(v[i].as_slice()));
        i += 1;
    }
    proof {
        lemma_deep_view_names(r);
        lemma_deep_view_names(*v);
        assert(r.deep_view() =~= v.deep_view());
    }
    r
}

} // verus!
