//! A formatter that renders a tree of configuration-like values as a flat,
//! TOML-style text document: nested objects become dotted keys, arrays render
//! inline or across several lines, and a handful of options steer the edge
//! cases (empty strings, empty objects, multi-line strings).

pub mod error;
pub mod flatten;
pub mod format;
pub mod laws;
pub mod model;
pub mod options;
pub mod text;
pub mod value;

pub use error::Error;
pub use format::to_string;
pub use options::Options;
pub use value::Value;
