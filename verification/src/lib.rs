//! Single-pass preprocessing of a parsed Markdown token stream: the title is
//! captured, footnote definitions are moved to the end in order of first
//! mention, a `+++` metadata block is parsed, and fenced code blocks are
//! handed out for highlighting.

pub mod footnote;
pub mod frontmatter;
pub mod highlight;
pub mod laws;
pub mod paths;
pub mod preprocess;
pub mod text;
pub mod token;
