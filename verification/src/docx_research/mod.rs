//! The research report as a Word document: cover, contents, revision
//! history, then abstract, body, references and appendices, with chapters,
//! sections, tables and figures numbered as in the LaTeX template.

pub mod blocks;
pub mod emitter;
pub mod document;
