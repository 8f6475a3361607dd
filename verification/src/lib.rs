//! Case lighting without drama: what has to be sent to paint devices one static color, and what
//! is read from them for diagnosis.
//!
//! The library talks to no device. A [`backend::Backend`] turns what the system reports into
//! devices, and a color into a plan of what to send. Where the next thing to send depends on the
//! replies, a session says what is due and takes the reply in: [`backends::remap`],
//! [`backends::ene`], [`backends::diag`], [`backends::gpu_session`] and
//! [`commands::set_session`]. Each session is proved to follow its procedure, which is stated
//! for every bus and every driver.
//!
//! The laws, public proof functions whose names begin with `law_`, say what holds across
//! functions: that keys and colors read back, that a painting reaches every LED and nothing
//! else, that moved memory modules get distinct free addresses, that a selected device is
//! painted exactly once.

pub mod backend;
pub mod backends;
pub mod cli;
pub mod commands;
pub mod driver_laws;
pub mod hid;
pub mod hid_laws;
pub mod nvapi;
pub mod pawnio;
pub mod text;
pub mod text_laws;
pub mod wire;
