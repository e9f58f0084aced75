//! Package manifests turned into archive records: the manifest line
//! language, include traversal, the content-addressed repository and the
//! planning of archive records.

pub mod text;
pub mod pkgmf;
pub mod archive;
pub mod resolve;
pub mod repo;
