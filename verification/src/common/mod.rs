pub mod ast;
pub mod citation;
pub mod numbering;
pub mod inline;
pub mod heading;
pub mod quotes;
pub mod escape;
pub mod front_matter;
pub mod crossref;
pub mod docx_image;
pub mod table;
pub mod table_layout;
pub mod table_to_longtblr;
pub mod markers;
