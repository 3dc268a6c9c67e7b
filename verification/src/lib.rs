//! Dictation logic of the Rigg Voice agent.
pub mod audio;
pub mod capture;
pub mod download;
pub mod float;
pub mod fn_tap;
pub mod models;
pub mod paste;
pub mod preview;
pub mod session;
pub mod shell;
pub mod text;
pub mod wav;
