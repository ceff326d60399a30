//! Approximates a target color by an ordered sequence of entries from a small
//! named palette, such that a fixed geometric-weighted compositing of the
//! sequence is perceptually closest (CIEDE2000) to the target.

pub mod color;
pub mod compose;
pub mod distance;
pub mod laws;
pub mod palette;
pub mod rank;
pub mod search;

pub use color::PreciseRGB;
pub use color::RGB;
pub use compose::calculate_color_from_panes;
pub use compose::calculate_color_from_panes as calculate_color_from_panes_custom;
pub use compose::calculate_color_from_panes_default;
pub use distance::calculate_distance;
pub use palette::convert_colors;
pub use palette::get_standard_colors;
pub use palette::Palette;
pub use search::find_combination_custom;
pub use search::find_combination_custom_colors;
pub use search::find_combination_default;
pub use search::Panes;
