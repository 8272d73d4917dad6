//! What readers can rely on: for each thing that they do, what they find
//! afterwards, in terms of what was there before.

pub mod files;
pub mod geometry;
pub mod keys;
pub mod marking;
pub mod moving;
pub mod panels;
pub mod pictures;
pub mod printing;
pub mod saving;
pub mod searching;
pub mod selecting;
pub mod showing;
pub mod starting;
pub mod storing;
pub mod windows;
