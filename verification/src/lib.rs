//! Rendering core of a terminal math-typesetting tool.
//!
//! A TeX-like markup string is tokenized, parsed into a syntax tree, and
//! resolved into a semantic expression tree.  A layout pass measures every
//! node at a propagated integer scale and records the exact geometry in a
//! layout tree; a render pass composites that tree into a grayscale pixel
//! buffer with an antialiased line primitive for fraction bars.

pub mod bitmap;
pub mod consts;
pub mod element;
pub mod error;
pub mod layout;
pub mod line;
pub mod sixel;
pub mod text_parser;
pub mod token;

pub use bitmap::Bitmap;
pub use element::KElement;
pub use error::ParseError;
pub use layout::LayoutTree;
pub use layout::ShapedGlyph;
pub use layout::TextQuery;
pub use text_parser::ParsedObject;
pub use token::PerenthesisType;
pub use token::Token;
