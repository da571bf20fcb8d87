//! Running-context bookkeeping for games launched through Steam's Proton:
//! the escape codec of the environment snapshot, the launcher command
//! classifier, the context store's record formats, selector resolution and
//! the doctor's consistency report.

pub mod text;
pub mod path;
pub mod shell;
pub mod command;
pub mod env_store;
pub mod steam;
pub mod resolve;
pub mod runtime;
pub mod doctor;
pub mod context;
