//! A verified core for a Chinese novel-writing editor: the novel model and
//! its edits, text statistics, prompt construction and the assistant's
//! decisions, outline parsing, export rendering, the encrypted file formats
//! and the store's layout, the editor shell's find, replace and palette, and
//! the AI service settings.

pub mod text;
pub mod util;
pub mod model;
pub mod edits;
pub mod context;
pub mod prompts;
pub mod outline;
pub mod crypto;
pub mod store;
pub mod export;
pub mod app;
pub mod shell;
pub mod dialogs;
pub mod views;
pub mod assistant;
pub mod ai;
pub mod markdown;
pub mod ordering;
pub mod service;
