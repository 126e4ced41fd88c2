//! Extraction of structured content (paragraphs, headings, lists, tables,
//! notes, comments, tracked changes, headers/footers, images) from the parts
//! of a `.docx` archive.

pub mod text;
pub mod model;
pub mod xml;
pub mod assoc;
pub mod rels;
pub mod path;
pub mod body;
pub mod parts;
pub mod meta;
pub mod archive;
pub mod images;
pub mod extract;
pub mod laws;
pub mod part_laws;
