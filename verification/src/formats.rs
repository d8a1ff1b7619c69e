//! Recognition of design-file formats from their content.

use vstd::prelude::*;
use vstd::utf8::{decode_utf8, valid_utf8};
use crate::gds_diff::{gdsii_magic, is_gdsii};
use crate::models::FileFormat;

verus! {

/// An Xschem file opens with its version line, `v {xschem`.
pub open spec fn xschem_header(c: Seq<u8>) -> bool {
    c.len() >= 9 && c[0] == 0x76 && c[1] == 0x20 && c[2] == 0x7b && c[3] == 0x78 && c[4] == 0x73
        && c[5] == 0x63 && c[6] == 0x68 && c[7] == 0x65 && c[8] == 0x6d
}

/// The format of a file, by its first bytes.
pub open spec fn format_of(c: Seq<u8>) -> FileFormat {
    if gdsii_magic(c) {
        FileFormat::Gds
    } else if xschem_header(c) {
        FileFormat::Xschem
    } else {
        FileFormat::Unknown
    }
}

/// Recognises a GDSII stream by its header record and an Xschem file by its
/// version line.
pub fn detect_format(content: &[u8]) -> (f: FileFormat)
    ensures
        f == format_of(content@),
{
    if is_gdsii(content) {
        return FileFormat::Gds;
    }
    if content.len() >= 9 && content[0] == 0x76 && content[1] == 0x20 && content[2] == 0x7b
        && content[3] == 0x78 && content[4] == 0x73 && content[5] == 0x63 && content[6] == 0x68
        && content[7] == 0x65 && content[8] == 0x6d {
        return FileFormat::Xschem;
    }
    FileFormat::Unknown
}

/// The text of `v` when it is valid UTF-8 (`std::str::from_utf8`, which
/// accepts exactly the well-formed UTF-8 byte sequences and decodes them).
#[verifier::external_body]
pub(crate) fn utf8_text(v: &[u8]) -> (r: Option<String>)
    ensures
        r is Some <==> valid_utf8(v@),
        r matches Some(s) ==> s@ == decode_utf8(v@),
{
    std::str::from_utf8(v).ok().map(|s| s.to_string())
}

} // verus!
