//! Content transformers: the JavaScript URL extractor, the HTML policies and
//! the choice of compression.

pub mod compression;
pub mod html;
pub mod js_urls;
