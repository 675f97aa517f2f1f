//! Library for reading and writing picoCAD project files.
//!
//! A project file is a text document with three parts: a one-line settings
//! header, a list of mesh definitions written as table literals, and a
//! 128x120 hexadecimal texture grid.  The [`assets`] module holds the typed
//! model of each part together with its parser and serializer.

pub mod assets;
pub mod axis;
pub mod error;
