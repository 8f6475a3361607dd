//! What the commands compute: which devices are meant, what is read out of the arguments, and
//! what is shown.

pub mod choice_laws;
pub mod ene_probe;
pub mod payload;
pub mod probe_laws;
pub mod results;
pub mod select;
pub mod set_session;
pub mod show;
pub mod show_laws;
