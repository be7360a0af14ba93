//! A note graph engine: reference extraction, a directed note graph with
//! path and title indices, and the two-pass builder that resolves
//! references between notes.
pub mod error;
pub mod browser;
pub mod graph;
pub mod listing;
pub mod pane;
pub mod parser;
pub mod scanner;

pub use error::Error;
pub use browser::App;
pub use graph::{Note, NoteGraph, NoteId};
pub use listing::sort_paths;
pub use pane::Pane;
pub use parser::{extract_wikilinks, parse_markdown, ParsedNote};
pub use scanner::{is_note_extension, is_note_path, title_with_stem, Scanner, SourceFile};
