//! The boundary to the `zip` crate: each archive is a zip container with a
//! single entry, `contents.xml`, holding the XML document body.

use vstd::prelude::*;

verus! {

/// The contents of the `contents.xml` entry of a zip container, `None`
/// where the bytes are not a valid container or have no such entry.  What
/// the name denotes is fixed by the zip format; the `zip` crate computes it.
pub uninterp spec fn zip_entry(bytes: Seq<u8>) -> Option<Seq<u8>>;

/// Relies on `zip::ZipArchive::by_name` and `Read::read_to_end`: returns
/// the stored contents of the `contents.xml` entry.
#[verifier::external_body]
pub fn read_zip_entry(data: &[u8]) -> (r: Option<Vec<u8>>)
    ensures
        r matches Some(v) ==> zip_entry(data@) == Some(v@),
        r is None ==> zip_entry(data@) is None,
{
    let mut za = zip::ZipArchive::new(std::io::Cursor::new(data)).ok()?;
    let mut f = za.by_name("contents.xml").ok()?;
    let mut out: Vec<u8> = Vec::new();
    std::io::Read::read_to_end(&mut f, &mut out).ok()?;
    Some(out)
}

/// Relies on `zip::ZipWriter`: creates a container with one entry,
/// `contents.xml`, stored uncompressed, whose contents read back
/// unchanged.  Because the entry is stored, its size in the container
/// equals the input length, so writing to an in-memory buffer fails only
/// when the entry outgrows the plain zip size field (the writer rejects a
/// fifth gigabyte unless told to expect large files); below the bound it
/// succeeds.
#[verifier::external_body]
pub fn write_zip_entry(xml: &[u8]) -> (r: Option<Vec<u8>>)
    ensures
        r matches Some(b) ==> zip_entry(b@) == Some(xml@),
        xml@.len() < 0xFFFF_0000 ==> r is Some,
{
    let mut zw = zip::ZipWriter::new(std::io::Cursor::new(Vec::new()));
    let opts = zip::write::SimpleFileOptions::default().compression_method(
        zip::CompressionMethod::Stored,
    );
    zw.start_file("contents.xml", opts).ok()?;
    std::io::Write::write_all(&mut zw, xml).ok()?;
    Some(zw.finish().ok()?.into_inner())
}

} // verus!
