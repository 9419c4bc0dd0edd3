pub mod captions;
pub mod charclass;
pub mod common;
pub mod convert;
pub mod docx_official;
pub mod docx_plan;
pub mod docx_research;
pub mod gui_form;
pub mod images;
pub mod input;
pub mod parser;
pub mod paths;
pub mod strset;
pub mod tex_compile;
pub mod tex_official;
pub mod tex_research;
pub mod tex_research_emitter;
pub mod text;

pub use convert::{
    default_output, ConvertOutcome, ConvertRequest, DocumentStyle, OutputFormat, ProgressEvent,
    ProgressLevel,
};
