//! Inventory and upgrade planner behind a VR overlay.

pub mod canvas;
pub mod data;
pub mod data_laws;
pub mod hash;
pub mod ids;
pub mod imaging;
pub mod ocr_lab;
pub mod scraper;
pub mod sorting;
pub mod state;
pub mod text;
pub mod text_laws;
pub mod updater;
pub mod updater_laws;
pub mod vr;
pub mod wishlist;
