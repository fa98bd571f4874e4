//! Content negotiation that rewrites HTML responses into Markdown for
//! clients that ask for it, with the header bookkeeping that keeps caches
//! correct.

pub mod config;
pub mod convert;
pub mod headers;
pub mod negotiate;
pub mod pipeline;
pub mod text;
pub mod vary;

pub use config::{MarkdownConfig, MarkdownLayer, MarkdownService};
pub use convert::{convert_response, Conversion, Reply};
pub use headers::{append_vary, is_html_response, wants_markdown};
