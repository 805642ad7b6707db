//! Core logic of a prose-writing editor: tiny markdown parsing, file naming,
//! object references, export decisions, metadata handling, searching, spell-checking
//! state and what the editor remembers between runs.

pub mod text;
pub mod markdown;
pub mod highlight;
pub mod compile;
pub mod naming;
pub mod schema;
pub mod regex_ops;
pub mod reference;
pub mod export;
pub mod textbox;
pub mod metadata;
pub mod loading;
pub mod saving;
pub mod objects;
pub mod events;
pub mod tree;
pub mod indexing;
pub mod search;
pub mod outlines;
pub mod references;
pub mod textboxes;
pub mod tabs;
pub mod metrics;
pub mod dictionary;
pub mod filetree;
pub mod editor_data;
