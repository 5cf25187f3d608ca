//! The `canvas` module puts raw bits into the QR code canvas.

mod alignment;
pub mod corner_finder;
pub mod debug;
mod grid;
mod functional;
mod mask;
pub mod penalty;
pub mod placement;
mod module;
pub mod optimize;

pub use self::alignment::ALIGNMENT_PATTERN_POSITIONS;
pub use self::grid::{
    Canvas, FORMAT_INFOS_MICRO_QR, FORMAT_INFOS_QR, FORMAT_INFO_COORDS_MICRO_QR,
    FORMAT_INFO_COORDS_QR_MAIN, FORMAT_INFO_COORDS_QR_SIDE, bit_color, format_drawable,
    format_drawn, format_number, grid_index, lemma_format_number_qr, lemma_masked_module_at,
    lemma_size_bound, mask_applied, masked_modules, micro_pattern_number, micro_symbol_number,
    module_index, number_drawn,
};
pub use self::functional::{
    alignment_count, alignment_position, is_finder_corner, is_functional, near,
    spec_is_functional, wrap,
};
pub use self::mask::{
    MaskPattern, checkerboard, diagonal_lines, diamonds, fields, horizontal_lines,
    large_checkerboard, lemma_mask_standard_formulas, lemma_vertical_lines_columns,
    mask_coords_ok, mask_inverts, meadow, spec_mask_inverts, trunc_div, trunc_rem,
    vertical_lines,
};
pub use self::module::{Module, lemma_mask_idempotent};
