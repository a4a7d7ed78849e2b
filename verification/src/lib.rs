//! Record handling for an audiobook librarian: Open Library dump lines and
//! audio file metadata, with the text operations they rest on.

pub mod text;
pub mod records;
pub mod file_metadata;
pub mod terminal;
