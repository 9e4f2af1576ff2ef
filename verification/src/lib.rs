//! Finding Markdown files by their metadata: tags, title, author, custom
//! frontmatter fields and dates, read from a YAML frontmatter block and from
//! inline conventions in the text.
pub mod date;
pub mod exclude;
pub mod filters;
pub mod frontmatter;
pub mod metadata;
pub mod pattern;
pub mod reader;
pub mod text;
pub mod yaml;
