//! What rendering decides without drawing: the click-through hit mask and
//! the text options of string meters.
pub mod color;
pub mod hit_mask;
pub mod meters;
pub mod pango_text;
pub mod shapes;
pub mod svg_path;
pub mod rect_cover;
