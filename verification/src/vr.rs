//! The overlay in the headset.

pub mod capture;
pub mod capture_session;
pub mod click_laws;
pub mod drawing_laws;
pub mod glyphs;
pub mod guide;
pub mod input;
pub mod ocr_render;
pub mod pose;
pub mod render;
pub mod render_laws;
pub mod round_laws;
pub mod runtime;
