//! Core of a modal, terminal-resident text editor: a document buffer with a
//! derived line-start index, a cursor that maps between byte offsets and
//! screen coordinates, a search/highlight registry, a modal key dispatcher,
//! and a renderer that composes each frame as a byte sequence.
//!
//! Terminal configuration, key delivery, window-size discovery and file
//! system access are external collaborators and live outside this library.

pub mod buffer;
pub mod constants;
pub mod cursor;
pub mod operations;
pub mod render;
pub mod session;
pub mod text;

pub use buffer::AppendBuffer;
pub use constants::CursorDirections;
pub use constants::EditorHealth;
pub use constants::EditorModes;
pub use constants::Keys;
pub use cursor::Cursor;
pub use cursor::EditorConfigs;
pub use session::Editor;
pub use session::EditorAction;
pub use session::EditorContext;
pub use session::SubMode;
