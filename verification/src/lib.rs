//! Portable game-library records, their revision history and the rules that
//! decide what the desktop shell may show, edit, import and publish.
pub mod appearance;
pub mod collections;
pub mod covers;
pub mod credentials;
pub mod editor;
pub mod events;
pub mod grid;
pub mod library;
pub mod model;
pub mod ordering;
pub mod reader;
pub mod records;
pub mod revisions;
pub mod settings;
pub mod shell;
pub mod steam;
pub mod stores;
pub mod text;
pub mod thumbs;
