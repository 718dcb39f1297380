//! Headless driving of Wayland applications, as far as it takes decisions.
//!
//! Everything here works on plain values: what a bus replied, what a process printed,
//! what an input event came to. It decides what to do next and what the outcome is;
//! carrying it out is left to the caller. Gestures, waits and the phases of a session's
//! life are small machines that name the next step and take in what became of it.
pub mod atspi;
pub mod backend;
pub mod cache;
pub mod capture;
pub mod error;
pub mod gaction;
pub mod geometry;
pub mod gsettings;
pub mod input;
pub mod keysym;
pub mod launch;
pub mod lifecycle;
pub mod locator;
pub mod poll;
pub mod query;
pub mod role;
pub mod scroll;
pub mod selector;
pub mod session;
pub mod sink;
pub mod snapshot;
pub mod text;

pub use backend::{PointerAxis, PointerButton};
pub use error::Error;
pub use geometry::Rect;
pub use input::FillMode;
pub use launch::SessionConfig;
pub use locator::{Locator, SelectBy};
pub use session::Session;
