use vstd::prelude::*;

verus! {

/// The bytes of one object file, tagged with its name.
#[derive(Debug, Clone)]
pub struct RawObjectFile {
    pub filename: String,
    pub data: Vec<u8>,
}

/// The object members of one archive.
#[derive(Debug, Clone)]
pub struct RawArchiveFile {
    pub filename: String,
    pub objects: Vec<RawObjectFile>,
}

/// Every input of a link: plain objects and archives.
#[derive(Debug, Clone)]
pub struct Files {
    pub objects: Vec<RawObjectFile>,
    pub archives: Vec<RawArchiveFile>,
}

} // verus!
