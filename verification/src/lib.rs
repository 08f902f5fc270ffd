pub mod discovery;
pub mod engine;
pub mod frames;
pub mod ipc;
pub mod net;
pub mod state;
pub mod tables;
pub mod text;
pub mod throttle;
pub mod ui;
pub mod updater;
