use vstd::prelude::*;
use std::io::Read;
use crate::models::{TreeFile, TreeFileV};

verus! {

/// The path/content pairs that a sequence of tracked files carries.
pub open spec fn entry_views(files: Seq<TreeFileV>) -> Seq<(Seq<char>, Seq<u8>)> {
    files.map_values(|f: TreeFileV| (f.path, f.content))
}

/// The tracked files that a sequence of path/content pairs describes.
pub open spec fn files_of_entries(entries: Seq<(Seq<char>, Seq<u8>)>) -> Seq<TreeFileV> {
    entries.map_values(|e: (Seq<char>, Seq<u8>)| TreeFileV { path: e.0, content: e.1 })
}

pub proof fn lemma_files_of_entry_views(files: Seq<TreeFileV>)
    ensures
        files_of_entries(entry_views(files)) == files,
{
    assert(files_of_entries(entry_views(files)) =~= files);
}

/// The position of the first slash, or the length if there is none.
pub open spec fn spec_first_slash(p: Seq<char>) -> int
    decreases p.len(),
{
    if p.len() == 0 {
        0
    } else if p.first() == '/' {
        0
    } else {
        1 + spec_first_slash(p.drop_first())
    }
}

/// A path component the tar format stores verbatim: nonempty, not a `.` or
/// `..` step, and free of NUL characters.
pub open spec fn spec_component_ok(c: Seq<char>) -> bool {
    &&& c.len() > 0
    &&& c != "."@
    &&& c != ".."@
    &&& !c.contains('\u{0}')
}

/// A path in the form the tar format stores verbatim: relative, and made of
/// plain components. The tar writer normalizes anything else - it drops `.`
/// steps and collapses doubled slashes - so only such paths round-trip
/// through an archive unchanged.
pub open spec fn spec_tar_normal_path(p: Seq<char>) -> bool
    decreases p.len(),
{
    let i = spec_first_slash(p);
    if 0 <= i && i < p.len() {
        spec_component_ok(p.take(i)) && spec_tar_normal_path(p.skip(i + 1))
    } else {
        spec_component_ok(p)
    }
}

/// Whether every file of the tree carries a path the tar format stores
/// verbatim.
pub open spec fn tar_normal_paths(files: Seq<TreeFileV>) -> bool {
    forall|i: int| 0 <= i < files.len() ==> spec_tar_normal_path(#[trigger] files[i].path)
}

/// The gzip-compressed tar archive that holds the given entries, in order,
/// named but not written out: the tar and flate2 crates are the sole
/// authority for the encoding.
pub uninterp spec fn targz_of(entries: Seq<(Seq<char>, Seq<u8>)>) -> Seq<u8>;

/// The entries that a gzip-compressed tar archive unpacks to, if it is one.
pub uninterp spec fn untargz_of(bytes: Seq<u8>) -> Option<Seq<(Seq<char>, Seq<u8>)>>;

/// Whether the tar writer accepts the given entries: packing is a
/// deterministic, in-memory encoding, so on fixed entries it either always
/// succeeds or always fails.
pub uninterp spec fn targz_packs(entries: Seq<(Seq<char>, Seq<u8>)>) -> bool;

/// Relies on tar::Builder over flate2::write::GzEncoder: packs the given
/// files, in order, as regular archive entries named by their paths. The
/// writer stores paths in tar-normal form verbatim, so an archive of such
/// paths unpacks to exactly the packed entries; whether packing succeeds is
/// a function of the entries alone, since everything is written in memory.
#[verifier::external_body]
pub(crate) fn pack_archive(files: &Vec<TreeFile>) -> (r: Option<Vec<u8>>)
    requires
        tar_normal_paths(files.deep_view()),
    ensures
        r is Some <==> targz_packs(entry_views(files.deep_view())),
        r matches Some(bytes) ==> {
            &&& bytes@ == targz_of(entry_views(files.deep_view()))
            &&& untargz_of(bytes@) == Some(entry_views(files.deep_view()))
        },
{
    let enc = flate2::write::GzEncoder::new(Vec::new(), flate2::Compression::default());
    let mut builder = tar::Builder::new(enc);
    for f in files.iter() {
        let mut h = tar::Header::new_gnu();
        h.set_size(f.content.len() as u64);
        h.set_mode(0o644);
        if builder.append_data(&mut h, &f.path, f.content.as_slice()).is_err() {
            return None;
        }
    }
    match builder.into_inner().and_then(|e| e.finish()) {
        Ok(bytes) => Some(bytes),
        Err(_) => None,
    }
}

/// Relies on tar::Archive over flate2::read::GzDecoder: unpacking yields the
/// archived entries in order, and fails exactly on bytes that are not such
/// an archive.
#[verifier::external_body]
pub(crate) fn unpack_archive(bytes: &Vec<u8>) -> (r: Option<Vec<TreeFile>>)
    ensures
        match untargz_of(bytes@) {
            Some(entries) => r matches Some(files) && files.deep_view() == files_of_entries(
                entries,
            ),
            None => r is None,
        },
{
    let dec = flate2::read::GzDecoder::new(bytes.as_slice());
    let mut archive = tar::Archive::new(dec);
    let entries = match archive.entries() { Ok(e) => e, Err(_) => return None };
    let mut out: Vec<TreeFile> = Vec::new();
    for entry in entries {
        let mut e = match entry { Ok(e) => e, Err(_) => return None };
        let path = match e.path() {
            Ok(p) => match p.to_str() { Some(s) => s.to_string(), None => return None },
            Err(_) => return None,
        };
        let mut content = Vec::new();
        if e.read_to_end(&mut content).is_err() { return None; }
        out.push(TreeFile { path, content });
    }
    Some(out)
}

} // verus!
