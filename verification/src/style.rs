//! Visual attributes and the table that assigns them to the parts of a document.
pub mod style;
pub mod visual;
