//! The Extract stage's computation: turn the retrieved `.tar.gz` source
//! archive's bytes into the entries to write under a working directory named
//! for the version. Decompression and tar parsing are done by outside crates
//! behind trusted wrappers; writing the entries to disk is the driver's.

use vstd::prelude::*;

use crate::digits::{append_bytes, dec_render, render_u64};
use crate::error::Error;
use crate::version::Version;

verus! {

/// What gzip decompression yields on given bytes: the decompressed stream,
/// or nothing when the bytes are not a well-formed gzip stream. A function
/// of the input alone.
pub uninterp spec fn gunzip_of(b: Seq<u8>) -> Option<Seq<u8>>;

/// Relies on flate2's `read::GzDecoder` over a byte slice, read to the end:
/// gzip decoding is a function of the input bytes alone, and it fails
/// exactly on malformed input. The error's rendered text is carried through.
#[verifier::external_body]
fn gunzip(data: &[u8]) -> (r: Result<Vec<u8>, Vec<u8>>)
    ensures
        match r {
            Ok(v) => gunzip_of(data@) == Some(v@),
            Err(_) => gunzip_of(data@) is None,
        },
{
    let mut out: Vec<u8> = Vec::new();
    let mut dec = flate2::read::GzDecoder::new(data);
    match std::io::Read::read_to_end(&mut dec, &mut out) {
        Ok(_) => Ok(out),
        Err(e) => Err(e.to_string().into_bytes()),
    }
}

/// What the tar reader yields on given bytes: each entry's path and
/// contents, in archive order, or nothing when the bytes are not a readable
/// tar stream. A function of the input alone.
pub uninterp spec fn tar_entries_of(b: Seq<u8>) -> Option<Seq<(Seq<u8>, Seq<u8>)>>;

/// Relies on the tar crate's `Archive` over an in-memory slice: the entry
/// list — each entry's path bytes and contents, in order — is a function of
/// the archive bytes alone; reading fails exactly on a malformed archive.
#[verifier::external_body]
fn tar_entries(data: &[u8]) -> (r: Result<Vec<(Vec<u8>, Vec<u8>)>, Vec<u8>>)
    ensures
        match r {
            Ok(es) => tar_entries_of(data@) is Some && {
                let m = tar_entries_of(data@)->Some_0;
                m.len() == es@.len() && forall|i: int|
                    0 <= i < es@.len() ==> m[i].0 == (#[trigger] es@[i]).0@ && m[i].1 == es@[i].1@
            },
            Err(_) => tar_entries_of(data@) is None,
        },
{
    let mut archive = tar::Archive::new(data);
    let mut out: Vec<(Vec<u8>, Vec<u8>)> = Vec::new();
    let entries = archive.entries().map_err(|e| e.to_string().into_bytes())?;
    for entry in entries {
        let mut entry = entry.map_err(|e| e.to_string().into_bytes())?;
        let path = entry.path_bytes().to_vec();
        let mut contents: Vec<u8> = Vec::new();
        std::io::Read::read_to_end(&mut entry, &mut contents)
            .map_err(|e| e.to_string().into_bytes())?;
        out.push((path, contents));
    }
    Ok(out)
}

/// Decompress and read the retrieved source archive: the entries to unpack,
/// in archive order, or `Io` carrying the decoder's message on a corrupt
/// archive. Succeeds exactly when the bytes are a well-formed `.tar.gz`.
pub fn extract_archive(archive: &[u8]) -> (r: Result<Vec<(Vec<u8>, Vec<u8>)>, Error>)
    ensures
        match r {
            Ok(es) => gunzip_of(archive@) is Some && {
                let inner = gunzip_of(archive@)->Some_0;
                tar_entries_of(inner) is Some && {
                    let m = tar_entries_of(inner)->Some_0;
                    m.len() == es@.len() && forall|i: int|
                        0 <= i < es@.len() ==> m[i].0 == (#[trigger] es@[i]).0@ && m[i].1
                            == es@[i].1@
                }
            },
            Err(e) => e is Io && (gunzip_of(archive@) is None || tar_entries_of(
                gunzip_of(archive@)->Some_0,
            ) is None),
        },
{
    let inner = match gunzip(archive) {
        Ok(v) => v,
        Err(m) => {
            return Err(Error::Io(m));
        },
    };
    match tar_entries(inner.as_slice()) {
        Ok(es) => Ok(es),
        Err(m) => Err(Error::Io(m)),
    }
}

/// The working directory's basename for a version's source tree:
/// `Python-<major>.<minor>.<patch>`.
pub fn extract_dir_name(v: &Version) -> (r: Vec<u8>)
    ensures
        r@ == seq![80u8, 121u8, 116u8, 104u8, 111u8, 110u8, 45u8] + dec_render(v.major as nat)
            + seq![46u8] + dec_render(v.minor as nat) + seq![46u8] + dec_render(v.patch as nat),
{
    let mut r: Vec<u8> = Vec::new();
    r.push(80u8);
    r.push(121u8);
    r.push(116u8);
    r.push(104u8);
    r.push(111u8);
    r.push(110u8);
    r.push(45u8);
    let ma = render_u64(v.major);
    append_bytes(&mut r, ma.as_slice());
    r.push(46u8);
    let mi = render_u64(v.minor);
    append_bytes(&mut r, mi.as_slice());
    r.push(46u8);
    let pa = render_u64(v.patch);
    append_bytes(&mut r, pa.as_slice());
    assert(r@ =~= seq![80u8, 121u8, 116u8, 104u8, 111u8, 110u8, 45u8] + dec_render(v.major as nat)
        + seq![46u8] + dec_render(v.minor as nat) + seq![46u8] + dec_render(v.patch as nat));
    r
}

} // verus!
