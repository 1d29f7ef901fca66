/// The document tree and its mathematical model.
pub mod ast;
/// Characters, strings and the few `String` operations the library relies on.
pub mod text;
/// The inline scanner: lists, emphasis, links and footnotes within a line.
pub mod spans;
/// The cursor and the line-by-line block parser.
pub mod parser;
/// The table of contents: heading numbering and unique anchors.
pub mod toc;
/// Rendering a document tree as HTML.
pub mod emitter;
/// Rendering a stream of start/end events as HTML.
pub mod events;
/// Pages and the metadata read from their keywords.
pub mod page;
/// Site and project configuration.
pub mod config;
/// Settings shared by the commands.
pub mod cli;
/// URLs of the site's files.
pub mod template_fns;
/// The sitemap.
pub mod sitemap;
/// The posts listing and its tag index.
pub mod posts;
/// Which pages are posts, and the site-wide listings.
pub mod site;
/// Properties of parsing and rendering that hold of every document.
pub mod laws;
