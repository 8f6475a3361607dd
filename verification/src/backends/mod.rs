//! The backends, what they send, and what holds of it.

pub mod catalog;
pub mod diag;
pub mod diag_contents;
pub mod diag_laws;
pub mod ene;
pub mod gigabyte_gpu;
pub mod gigabyte_mobo;
pub mod gpu_laws;
pub mod gpu_session;
pub mod gskill_ddr5;
pub mod gskill_laws;
pub mod mobo_board;
pub mod mobo_laws;
pub mod mobo_listing;
pub mod remap;
pub mod remap_laws;
pub mod remap_world;
pub mod setup_laws;

pub use catalog::{all, AnyBackend};
