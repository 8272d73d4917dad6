//! The logic of a PDF reader: pages and text layers, searching, the state of
//! an open session and what every message does to it.

pub mod annot;
pub mod browse;
pub mod cache;
pub mod dialogs;
pub mod engine;
pub mod find;
pub mod history;
pub mod keyboard;
pub mod late;
pub mod laws;
pub mod marking;
pub mod messages;
pub mod native;
pub mod numbers;
pub mod outline;
pub mod page;
pub mod paths;
pub mod positions;
pub mod print;
pub mod ready;
pub mod rendering;
pub mod search;
pub mod session;
pub mod state;
pub mod tabs;
pub mod text;
pub mod view;
