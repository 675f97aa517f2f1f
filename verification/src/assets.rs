//! The typed model of a picoCAD project and the codec for each of its parts.

pub mod color;
pub mod num;
pub mod point;
pub mod text;
pub mod header;
pub mod footer;
pub mod table;
pub mod edge;
pub mod face;
pub mod mesh;
pub mod model;

pub use color::Color;
pub use point::{Point2D, Point3D};
pub use header::Header;
pub use footer::Footer;
pub use table::TableValue;
pub use edge::Edge;
pub use face::{Face, UVMap};
pub use mesh::{Mesh, Rotation};
pub use model::{Model, seperate_model};
