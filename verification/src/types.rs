//! The `types` module contains types associated with the functional elements of
//! a QR code.

mod color;
mod ec_level;
mod mode;
mod version;

pub use self::{
    color::{Color, lemma_invert_involutive},
    ec_level::EcLevel,
    mode::{
        Mode, RMQR_LENGTH_BITS_COUNT, lemma_max_is_least_upper_bound, lemma_max_laws,
        lemma_mode_order_is_partial_order,
    },

    version::{MicroVersion, NormalVersion, RectMicroVersion, Version},
};
