//! The logic of a window switcher for the COSMIC desktop: which windows are
//! listed and in which order, what the overlay shows and highlights, and what
//! each key press, signal and compositor event leads to.
//!
//! Nothing here talks to the compositor, draws, or reads a file. The program
//! around the library turns what it receives into the plain values of these
//! modules, and performs the effects that they return.

pub mod app;
pub mod behaviour;
pub mod config;
pub mod history;
pub mod icon;
pub mod input;
pub mod laws;
pub mod listing;
pub mod mru;
pub mod screen;
pub mod sequences;
pub mod thread;
pub mod wayland;
pub mod window;

