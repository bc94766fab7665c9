//! Discovery of image files in directory walks and zip archives, and
//! extraction of single archive entries as base64 payloads with a MIME type
//! inferred from the entry's extension.

pub mod archive;
pub mod directory;
pub mod encoding;
pub mod error;
pub mod media;
pub mod order;
pub mod text;
