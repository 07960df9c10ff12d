//! A small verified engine for assembling and serializing lightweight
//! markup documents: callers build a tree of typed text elements
//! (paragraphs, headings, links, styled spans) and write it to a byte
//! buffer, with every special character escaped so that a standard
//! interpreter of the format reproduces the intended structure.

pub mod escape;
pub mod streak;
pub mod model;
pub mod elements;
pub mod writer;
pub mod convert;
pub mod document;

pub use escape::Escaping;
pub use elements::Element;
pub use elements::Heading;
pub use elements::Link;
pub use elements::Paragraph;
pub use elements::RichText;
pub use writer::MarkdownWritable;
pub use writer::WriteError;
pub use convert::AsMarkdown;
pub use document::Markdown;
