//! A collaborative whiteboard's core: a command-driven document that draws on a caller's
//! canvas and keeps an undo history, the conversion between its commands and the events
//! exchanged with peers, and the stroke geometry used when strokes are rendered as paths.

pub mod collab;
pub mod color;
pub mod doc;
pub mod document;
pub mod painter;
pub mod stroke;

pub use collab::{AddressedEvent, Event, MoveEvent, Peer, Room};
pub use color::{Color, ColorSelector};
pub use doc::{CursorPos, MutSketch, OwnedSketch, Size, Sketch};
pub use document::{App, Command, CommandSender, Cursor, Pen, PenCommand, PenId, Segment};
pub use painter::{Painter, PenSize};
pub use stroke::{Chalk, Point, Polyline};
