//! Geometry constants of the layout engine.
//!
//! Every scale-relative constant is held in hundredths of its scale, so that
//! a derived quantity is the integer `value * scale / 100`.

use vstd::prelude::*;

verus! {

/// Thickness of the fraction bar, in hundredths of the global scale.
pub const LINE_WIDTH_CENTI: u32 = 2;

/// Extra vertical centering for plain text leaves, in hundredths of the local
/// scale.
pub const TEXT_OFFSET_CENTI: u32 = 0;

/// Horizontal padding on each side of a plain text leaf, in hundredths of the
/// local scale.
pub const TEXT_X_PADDING_CENTI: u32 = 0;

/// Horizontal padding on each side of an operator glyph, in hundredths of the
/// local scale.
pub const OPERATOR_X_PADDING_CENTI: u32 = 10;

/// Scale shrink factor for fraction operands, in hundredths.
pub const FRACTION_SCALE_CENTI: u32 = 80;

/// Padding around fraction operands, in hundredths of the local scale.
pub const FRACTION_PADDING_CENTI: u32 = 20;

/// Scale shrink factor for super/subscripts, in hundredths.
pub const SUPERSCRIPT_SCALE_CENTI: u32 = 80;

/// Vertical raise of a superscript, in hundredths of the script's height.
pub const SUPERSCRIPT_Y_OFFSET_CENTI: u32 = 40;

/// Vertical centering offsets of the dedicated symbol leaves, in hundredths
/// of the local scale; different glyphs have different visual centers.
pub const PLUS_YOFFSET_CENTI: u32 = 15;

pub const MINUS_YOFFSET_CENTI: u32 = 15;

pub const EQUALS_YOFFSET_CENTI: u32 = 27;

pub const PLUS_MINUS_YOFFSET_CENTI: u32 = 15;

/// Upper bound on any canvas dimension the layout engine will produce.  Keeps
/// every coordinate product comfortably inside machine integers.
pub const MAX_DIM: usize = 32768;

} // verus!
