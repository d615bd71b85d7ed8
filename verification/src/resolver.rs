//! The config resolver: walk the requirement source chain — the directories
//! from the working directory up to the filesystem root, nearest first — and
//! take the first non-empty line of the nearest declaration file; with no
//! file anywhere, fall back to the persisted default requirement; with no
//! default either, fail. A malformed line is an error, never skipped.

use vstd::prelude::*;

use crate::digits::{copy_bytes, lemma_deep_view_names};
use crate::error::Error;
use crate::requirement::{spec_accepted_req, Requirement};

verus! {

/// One directory of the requirement source chain, nearest first: its path
/// and, when a declaration file is present there, the file's lines.
pub struct ChainEntry {
    pub dir: Vec<u8>,
    pub file_lines: Option<Vec<Vec<u8>>>,
}

#[verifier::ext_equal]
pub ghost struct ChainEntryV {
    pub dir: Seq<u8>,
    pub file_lines: Option<Seq<Seq<u8>>>,
}

impl View for ChainEntry {
    type V = ChainEntryV;

    open spec fn view(&self) -> ChainEntryV {
        ChainEntryV {
            dir: self.dir@,
            file_lines: match self.file_lines {
                Option::Some(ref l) => Option::Some(l.deep_view()),
                Option::None => Option::None,
            },
        }
    }
}

/// Where a resolved requirement came from.
#[derive(Debug)]
pub enum ReqSource {
    /// The declaration file at the carried path.
    DeclFile(Vec<u8>),
    /// The persisted global default.
    DefaultSetting,
}

/// The declaration file's basename.
pub open spec fn toolchain_file() -> Seq<u8> {
    seq![
        46u8, 112u8, 121u8, 116u8, 104u8, 111u8, 110u8, 45u8, 118u8, 101u8, 114u8, 115u8, 105u8,
        111u8, 110u8,
    ]
}

/// The declaration file's path inside a directory.
pub open spec fn decl_path(dir: Seq<u8>) -> Seq<u8> {
    dir + seq![47u8] + toolchain_file()
}

/// Index of the nearest chain entry that has a declaration file.
pub open spec fn first_file_index(c: Seq<ChainEntryV>) -> Option<int>
    decreases c.len(),
{
    if c.len() == 0 {
        Option::None
    } else if c[0].file_lines is Some {
        Option::Some(0)
    } else {
        match first_file_index(c.drop_first()) {
            Option::Some(i) => Option::Some(i + 1),
            Option::None => Option::None,
        }
    }
}

pub proof fn lemma_first_file_index(c: Seq<ChainEntryV>)
    ensures
        match first_file_index(c) {
            Option::Some(i) => 0 <= i < c.len() && c[i].file_lines is Some && forall|j: int|
                0 <= j < i ==> (#[trigger] c[j]).file_lines is None,
            Option::None => forall|j: int| 0 <= j < c.len() ==> (#[trigger] c[j]).file_lines is None,
        },
    decreases c.len(),
{
    if c.len() > 0 && c[0].file_lines is None {
        lemma_first_file_index(c.drop_first());
        match first_file_index(c.drop_first()) {
            Option::Some(i) => {
                assert(c[i + 1] == c.drop_first()[i]);
                assert forall|j: int| 0 <= j < i + 1 implies (#[trigger] c[j]).file_lines
                    is None by {
                    if j >= 1 {
                        assert(c.drop_first()[j - 1] == c[j]);
                    }
                }
            },
            Option::None => {
                assert forall|j: int| 0 <= j < c.len() implies (#[trigger] c[j]).file_lines
                    is None by {
                    if j >= 1 {
                        assert(c.drop_first()[j - 1] == c[j]);
                    }
                }
            },
        }
    }
}


/// The first non-empty line of a file; empty if there is none.
pub open spec fn first_nonempty(lines: Seq<Seq<u8>>) -> Seq<u8>
    decreases lines.len(),
{
    if lines.len() == 0 {
        Seq::empty()
    } else if lines[0].len() > 0 {
        lines[0]
    } else {
        first_nonempty(lines.drop_first())
    }
}

/// Build the declaration file path inside a directory.
fn decl_path_exec(dir: &[u8]) -> (r: Vec<u8>)
    ensures
        r@ == decl_path(dir@),
{
    let mut r = copy_bytes(dir);
    r.push(47u8);
    r.push(46u8);
    r.push(112u8);
    r.push(121u8);
    r.push(116u8);
    r.push(104u8);
    r.push(111u8);
    r.push(110u8);
    r.push(45u8);
    r.push(118u8);
    r.push(101u8);
    r.push(114u8);
    r.push(115u8);
    r.push(105u8);
    r.push(111u8);
    r.push(110u8);
    assert(r@ =~= decl_path(dir@));
    r
}

/// Resolve the requirement for a directory: the first non-empty line of the
/// nearest declaration file, else the default, else `NoRequirementFound`.
pub fn resolve(chain: &Vec<ChainEntry>, default_req: &Option<Vec<u8>>) -> (r: Result<
    (Requirement, ReqSource),
    Error,
>)
    ensures
        ({
            let c = Seq::new(chain@.len(), |i: int| chain@[i]@);
            match first_file_index(c) {
                Option::Some(fi) => {
                    let line = first_nonempty(c[fi].file_lines->Some_0);
                    match r {
                        Ok((q, src)) => spec_accepted_req(line) == Some(q@) && match src {
                            ReqSource::DeclFile(p) => p@ == decl_path(c[fi].dir),
                            ReqSource::DefaultSetting => false,
                        },
                        Err(e) => spec_accepted_req(line) is None && match e {
                            Error::InvalidRequirement(t) => t@ == line,
                            _ => false,
                        },
                    }
                },
                Option::None => match default_req {
                    Option::Some(d) => match r {
                        Ok((q, src)) => spec_accepted_req(d@) == Some(q@) && src is DefaultSetting,
                        Err(e) => spec_accepted_req(d@) is None && match e {
                            Error::InvalidRequirement(t) => t@ == d@,
                            _ => false,
                        },
                    },
                    Option::None => r matches Err(Error::NoRequirementFound),
                },
            }
        }),
{
    let ghost c = Seq::new(chain@.len(), |i: int| chain@[i]@);
    let n = chain.len();
    let mut i: usize = 0;
    let mut fi: Option<usize> = None;
    while i < n
        invariant
            i <= n == chain@.len(),
            c == Seq::new(chain@.len(), |k: int| chain@[k]@),
            match fi {
                Some(k) => k < i && c[k as int].file_lines is Some && forall|j: int|
                    0 <= j < k ==> (#[trigger] c[j]).file_lines is None,
                None => forall|j: int| 0 <= j < i ==> (#[trigger] c[j]).file_lines is None,
            },
        decreases n - i,
    {
        if fi.is_none() && chain[i].file_lines.is_some() {
            fi = Some(i);
        }
        i += 1;
    }
    proof {
        lemma_first_file_index(c);
    }
    match fi {
        Some(k) => {
            assert(first_file_index(c) == Option::Some(k as int));
            match &chain[k].file_lines {
                Some(lines) => {
                    proof {
                        lemma_deep_view_names(*lines);
                    }
                    let ghost lv = lines.deep_view();
                    // First non-empty line.
                    let m = lines.len();
                    let mut j: usize = 0;
                    let mut li: Option<usize> = None;
                    while j < m
                        invariant
                            j <= m == lines@.len(),
                            lv == lines.deep_view(),
                            lv.len() == m,
                            forall|t: int| 0 <= t < m ==> lv[t] == (#[trigger] lines@[t])@,
                            match li {
                                Some(t) => t < j && lv[t as int].len() > 0 && forall|s: int|
                                    0 <= s < t ==> (#[trigger] lv[s]).len() == 0,
                                None => forall|s: int| 0 <= s < j ==> (#[trigger] lv[s]).len() == 0,
                            },
                        decreases m - j,
                    {
                        if li.is_none() && lines[j].len() > 0 {
                            li = Some(j);
                        }
                        j += 1;
                    }
                    let line: Vec<u8> = match li {
                        Some(t) => copy_bytes(lines[t].as_slice()),
                        None => Vec::new(),
                    };
                    proof {
                        lemma_first_nonempty_pin(lv, line@, li is Some);
                    }
                    assert(line@ == first_nonempty(lv));
                    match Requirement::parse(line.as_slice()) {
                        Ok(q) => Ok((q, ReqSource::DeclFile(decl_path_exec(chain[k].dir.as_slice())))),
                        Err(e) => Err(e),
                    }
                },
                None => {
                    assert(false);
                    Err(Error::NoRequirementFound)
                },
            }
        },
        None => {
            assert(first_file_index(c) is None);
            match default_req {
                Some(d) => {
                    match Requirement::parse(d.as_slice()) {
                        Ok(q) => Ok((q, ReqSource::DefaultSetting)),
                        Err(e) => Err(e),
                    }
                },
                None => Err(Error::NoRequirementFound),
            }
        },
    }
}

/// Pin `first_nonempty` to the line the scan found.
proof fn lemma_first_nonempty_pin(lines: Seq<Seq<u8>>, line: Seq<u8>, found: bool)
    requires
        found ==> exists|t: int|
            0 <= t < lines.len() && lines[t] == line && line.len() > 0 && (forall|s: int|
                0 <= s < t ==> (#[trigger] lines[s]).len() == 0),
        !found ==> line.len() == 0 && forall|s: int|
            0 <= s < lines.len() ==> (#[trigger] lines[s]).len() == 0,
    ensures
        first_nonempty(lines) == line,
    decreases lines.len(),
{
    if lines.len() == 0 {
        assert(first_nonempty(lines) =~= Seq::<u8>::empty());
        if !found {
            assert(line =~= Seq::<u8>::empty());
        }
    } else if lines[0].len() > 0 {
        if found {
            let t = choose|t: int|
                0 <= t < lines.len() && lines[t] == line && line.len() > 0 && (forall|s: int|
                    0 <= s < t ==> (#[trigger] lines[s]).len() == 0);
            if t > 0 {
                assert(lines[0].len() == 0);
            }
        }
    } else {
        assert(forall|j: int| 1 <= j < lines.len() ==> lines[j] == #[trigger] lines.drop_first()[j
            - 1]);
        if found {
            let t = choose|t: int|
                0 <= t < lines.len() && lines[t] == line && line.len() > 0 && (forall|s: int|
                    0 <= s < t ==> (#[trigger] lines[s]).len() == 0);
            assert(t > 0);
            assert(lines.drop_first()[t - 1] == line);
            assert(forall|s: int| 0 <= s < t - 1 ==> (#[trigger] lines.drop_first()[s]).len() == 0);
            lemma_first_nonempty_pin(lines.drop_first(), line, true);
        } else {
            assert(forall|s: int|
                0 <= s < lines.drop_first().len() ==> (#[trigger] lines.drop_first()[s]).len()
                    == 0);
            lemma_first_nonempty_pin(lines.drop_first(), line, false);
        }
    }
}

} // verus!
