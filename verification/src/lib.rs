pub mod text;
pub mod modes;
pub mod naming;
pub mod order;
pub mod env;
pub mod clock;
pub mod sorting;
pub mod batch;
pub mod log;
pub mod clients;
pub mod undo;
pub mod watch;
