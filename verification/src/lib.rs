//! A small static-site generator core: front-matter parsing, a `{{key}}`
//! placeholder substitution engine, Markdown-to-HTML conversion through an
//! external converter, and the path rules that drive a build. Content and
//! templates are handled as UTF-8 byte sequences; reading and writing files
//! is left to the caller. Trimming recognises the Unicode whitespace
//! characters by their UTF-8 encodings.

pub mod front_matter;
pub mod paths;
pub mod reader;
pub mod render;
pub mod substitute;
pub mod text;
pub mod vars;
