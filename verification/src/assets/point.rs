//! Plain 2- and 3-dimensional points.
//!
//! The structs are generic in their coordinate type.  Throughout the library
//! the coordinate type is `i64`, read as a count of ten-thousandths: the
//! value 1.5 of the file format is held as 15000 (see [`super::num`]).
//! Texture pixel positions use `usize` coordinates instead.

use vstd::prelude::*;
use vstd::string::StringExecFns;
use crate::assets::num::{coord_in_range, coord_text, push_coord_text, chars_to_string};
use crate::assets::table::{spec_scalar_coord, scalar_coord, TableValue};
use crate::error::{PicoError, PicoErrView};

verus! {

/// A point in 2-dimensional space; the library uses it for texture (UV)
/// coordinates and for pixel positions in the footer grid.
#[derive(Debug, Copy, Clone, Eq, PartialEq, Structural)]
pub struct Point2D<T> {
    pub u: T,
    pub v: T,
}

/// A point in 3-dimensional space; the library uses it for mesh vertices,
/// mesh positions and shadow rotations.
#[derive(Debug, Copy, Clone, Eq, PartialEq, Structural)]
pub struct Point3D<T> {
    pub x: T,
    pub y: T,
    pub z: T,
}

impl<T> Point2D<T> {
    /// Creates the point with the given coordinates.
    pub fn new(u: T, v: T) -> (r: Point2D<T>)
        ensures
            r.u == u,
            r.v == v,
    {
        Point2D { u, v }
    }

    /// Replaces both coordinates with the given ones.
    pub fn set(&mut self, u: T, v: T)
        ensures
            final(self).u == u,
            final(self).v == v,
    {
        self.u = u;
        self.v = v;
    }

    /// Applies the given transform to each coordinate.
    pub fn map<F: Fn(&T) -> T>(&mut self, f: F)
        requires
            f.requires((&old(self).u,)),
            f.requires((&old(self).v,)),
        ensures
            f.ensures((&old(self).u,), final(self).u),
            f.ensures((&old(self).v,), final(self).v),
    {
        let nu = f(&self.u);
        let nv = f(&self.v);
        self.u = nu;
        self.v = nv;
    }
}

impl<T> Point3D<T> {
    /// Creates the point with the given coordinates.
    pub fn new(x: T, y: T, z: T) -> (r: Point3D<T>)
        ensures
            r.x == x,
            r.y == y,
            r.z == z,
    {
        Point3D { x, y, z }
    }

    /// Replaces all three coordinates with the given ones.
    pub fn set(&mut self, x: T, y: T, z: T)
        ensures
            final(self).x == x,
            final(self).y == y,
            final(self).z == z,
    {
        self.x = x;
        self.y = y;
        self.z = z;
    }

    /// Applies the given transform to each coordinate.
    pub fn map<F: Fn(&T) -> T>(&mut self, f: F)
        requires
            f.requires((&old(self).x,)),
            f.requires((&old(self).y,)),
            f.requires((&old(self).z,)),
        ensures
            f.ensures((&old(self).x,), final(self).x),
            f.ensures((&old(self).y,), final(self).y),
            f.ensures((&old(self).z,), final(self).z),
    {
        let nx = f(&self.x);
        let ny = f(&self.y);
        let nz = f(&self.z);
        self.x = nx;
        self.y = ny;
        self.z = nz;
    }
}

/// The decode of a two-number coordinate table: any other element count
/// is the counted error (reported against the three-element shape, as
/// every coordinate table error is), and an element that is not a number
/// is an evaluator-level fault.
pub open spec fn spec_decode_point2(t: TableValue) -> Result<Point2D<i64>, PicoErrView> {
    match t {
        TableValue::Table(sq, nm) => if sq@.len() != 2 {
            Err(PicoErrView::TableLength(sq@.len() as int, 3))
        } else {
            match (spec_scalar_coord(sq@[0]), spec_scalar_coord(sq@[1])) {
                (Some(u), Some(v)) => Ok(Point2D { u: u as i64, v: v as i64 }),
                _ => Err(PicoErrView::Lua("invalid coordinate"@)),
            }
        },
        _ => Err(PicoErrView::Lua("point is not a table"@)),
    }
}

impl Point2D<i64> {
    /// Componentwise sum of two points.
    pub fn add(self, rhs: Point2D<i64>) -> (r: Point2D<i64>)
        requires
            i64::MIN <= self.u + rhs.u <= i64::MAX,
            i64::MIN <= self.v + rhs.v <= i64::MAX,
        ensures
            r.u == self.u + rhs.u,
            r.v == self.v + rhs.v,
    {
        Point2D { u: self.u + rhs.u, v: self.v + rhs.v }
    }

    /// Componentwise difference of two points.
    pub fn sub(self, rhs: Point2D<i64>) -> (r: Point2D<i64>)
        requires
            i64::MIN <= self.u - rhs.u <= i64::MAX,
            i64::MIN <= self.v - rhs.v <= i64::MAX,
        ensures
            r.u == self.u - rhs.u,
            r.v == self.v - rhs.v,
    {
        Point2D { u: self.u - rhs.u, v: self.v - rhs.v }
    }
}

impl Point2D<i64> {
    /// The comma-separated text of the point, as it stands inside braces
    /// on the wire.
    pub fn serialize(&self) -> (r: String)
        requires
            coord_in_range(self.u as int),
            coord_in_range(self.v as int),
        ensures
            r@ == coord_text(self.u as int) + seq![','] + coord_text(self.v as int),
    {
        let mut out: Vec<char> = Vec::new();
        push_coord_text(&mut out, self.u);
        out.push(',');
        push_coord_text(&mut out, self.v);
        let r = chars_to_string(&out);
        proof {
            assert(r@ =~= coord_text(self.u as int) + seq![','] + coord_text(self.v as int));
        }
        r
    }

    /// Decodes a point from a two-number coordinate table, exactly as
    /// [`spec_decode_point2`] describes.
    pub fn from_table(t: &TableValue) -> (r: Result<Point2D<i64>, PicoError>)
        ensures
            match r {
                Ok(p) => spec_decode_point2(*t) == Ok::<Point2D<i64>, PicoErrView>(p),
                Err(e) => spec_decode_point2(*t) == Err::<Point2D<i64>, PicoErrView>(e@),
            },
    {
        match t {
            TableValue::Table(sq, _) => {
                if sq.len() != 2 {
                    return Err(PicoError::TableLength(sq.len(), 3));
                }
                let u = match scalar_coord(&sq[0]) {
                    Some(v) => v,
                    None => {
                        return Err(PicoError::Lua(String::from_str("invalid coordinate")));
                    },
                };
                let v = match scalar_coord(&sq[1]) {
                    Some(v) => v,
                    None => {
                        return Err(PicoError::Lua(String::from_str("invalid coordinate")));
                    },
                };
                Ok(Point2D { u, v })
            },
            _ => Err(PicoError::Lua(String::from_str("point is not a table"))),
        }
    }

    /// Parses a point from the text of a two-number table literal.  The
    /// text goes through the embedded evaluator, so a success is the
    /// decode of some tree the evaluator produced for it, and a failure
    /// is either an evaluator error or the decode error of such a tree.
    pub fn parse(s: &str) -> (r: Result<Point2D<i64>, PicoError>)
        ensures
            match r {
                Ok(p) => exists|tv: TableValue| #[trigger] spec_decode_point2(tv) == Ok::<
                    Point2D<i64>,
                    PicoErrView,
                >(p),
                Err(e) => e@ is Lua || (exists|tv: TableValue| #[trigger] spec_decode_point2(tv)
                    == Err::<Point2D<i64>, PicoErrView>(e@)),
            },
    {
        match crate::assets::table::eval_literal(s) {
            Err(msg) => Err(PicoError::Lua(msg)),
            Ok(tv) => {
                let r = Point2D::from_table(&tv);
                proof {
                    match &r {
                        Ok(p) => {
                            assert(spec_decode_point2(tv) == Ok::<Point2D<i64>, PicoErrView>(
                                *p,
                            ));
                        },
                        Err(e) => {
                            assert(spec_decode_point2(tv) == Err::<Point2D<i64>, PicoErrView>(
                                e@,
                            ));
                        },
                    }
                }
                r
            },
        }
    }
}

impl Point3D<i64> {
    /// The comma-separated text of the point, as it stands inside braces
    /// on the wire.
    pub fn serialize(&self) -> (r: String)
        requires
            coord_in_range(self.x as int),
            coord_in_range(self.y as int),
            coord_in_range(self.z as int),
        ensures
            r@ == coord_text(self.x as int) + seq![','] + coord_text(self.y as int) + seq![',']
                + coord_text(self.z as int),
    {
        let mut out: Vec<char> = Vec::new();
        push_coord_text(&mut out, self.x);
        out.push(',');
        push_coord_text(&mut out, self.y);
        out.push(',');
        push_coord_text(&mut out, self.z);
        let r = chars_to_string(&out);
        proof {
            assert(r@ =~= coord_text(self.x as int) + seq![','] + coord_text(self.y as int)
                + seq![','] + coord_text(self.z as int));
        }
        r
    }

    /// Parses a point from the text of a three-number table literal.  The
    /// text goes through the embedded evaluator, so a success is the
    /// decode of some tree the evaluator produced for it, and a failure
    /// is either an evaluator error or the decode error of such a tree.
    pub fn parse(s: &str) -> (r: Result<Point3D<i64>, PicoError>)
        ensures
            match r {
                Ok(p) => exists|tv: TableValue|
                    #[trigger] crate::assets::mesh::spec_decode_point3(tv) == Ok::<
                        Point3D<i64>,
                        PicoErrView,
                    >(p),
                Err(e) => e@ is Lua || (exists|tv: TableValue|
                    #[trigger] crate::assets::mesh::spec_decode_point3(tv) == Err::<
                        Point3D<i64>,
                        PicoErrView,
                    >(e@)),
            },
    {
        match crate::assets::table::eval_literal(s) {
            Err(msg) => Err(PicoError::Lua(msg)),
            Ok(tv) => {
                let r = crate::assets::mesh::Mesh::decode_point3(&tv);
                proof {
                    match &r {
                        Ok(p) => {
                            assert(crate::assets::mesh::spec_decode_point3(tv) == Ok::<
                                Point3D<i64>,
                                PicoErrView,
                            >(*p));
                        },
                        Err(e) => {
                            assert(crate::assets::mesh::spec_decode_point3(tv) == Err::<
                                Point3D<i64>,
                                PicoErrView,
                            >(e@));
                        },
                    }
                }
                r
            },
        }
    }

    /// Componentwise sum of two points.
    pub fn add(self, rhs: Point3D<i64>) -> (r: Point3D<i64>)
        requires
            i64::MIN <= self.x + rhs.x <= i64::MAX,
            i64::MIN <= self.y + rhs.y <= i64::MAX,
            i64::MIN <= self.z + rhs.z <= i64::MAX,
        ensures
            r.x == self.x + rhs.x,
            r.y == self.y + rhs.y,
            r.z == self.z + rhs.z,
    {
        Point3D { x: self.x + rhs.x, y: self.y + rhs.y, z: self.z + rhs.z }
    }

    /// Componentwise difference of two points.
    pub fn sub(self, rhs: Point3D<i64>) -> (r: Point3D<i64>)
        requires
            i64::MIN <= self.x - rhs.x <= i64::MAX,
            i64::MIN <= self.y - rhs.y <= i64::MAX,
            i64::MIN <= self.z - rhs.z <= i64::MAX,
        ensures
            r.x == self.x - rhs.x,
            r.y == self.y - rhs.y,
            r.z == self.z - rhs.z,
    {
        Point3D { x: self.x - rhs.x, y: self.y - rhs.y, z: self.z - rhs.z }
    }
}

} // verus!
