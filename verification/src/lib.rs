//! Disk attribution: which project, app or tool each part of a disk belongs to.

pub mod attribution;
pub mod cleanup;
pub mod disk;
pub mod doc;
pub mod ffi;
pub mod fspath;
pub mod order;
pub mod pathmap;
pub mod scan;
pub mod seqs;
pub mod text;
pub mod text_laws;
