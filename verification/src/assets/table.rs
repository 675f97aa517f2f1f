//! The generic value tree of the table-literal evaluator.
//!
//! Mesh and face definitions are written in a small table-literal language.
//! The library does not evaluate that language itself: it hands the text to
//! the embedded Lua interpreter (the `rlua` crate) and receives a generic
//! tree of scalars, ordered sequence parts and named fields, which the
//! verified decoders in [`super::face`] and [`super::mesh`] then walk.
//!
//! Numbers come back as their decimal text: the verified number codec in
//! [`super::num`] gives them a meaning, so that nothing numeric is taken
//! on trust.  The tree conversion runs under a depth bound, so a cyclic
//! or absurdly deep table becomes an error, never an exhausted stack.

use vstd::prelude::*;
use vstd::string::StringExecFns;
use crate::assets::num::{
    spec_parse_coord, parse_coord, str_to_chars, COORD_MAX_WHOLE,
};

verus! {

/// One value of the evaluator's tree: a scalar, or a table with an ordered
/// sequence part and a set of named fields.  Integer scalars and float
/// scalars are distinct, as they are in the literal language; float
/// scalars carry their decimal text.  The order of the named fields is not
/// meaningful: the evaluator hands them back in no promised order, and the
/// decoders look fields up by key.
#[derive(Debug, PartialEq)]
pub enum TableValue {
    /// The absent value.
    Nil,
    /// A boolean scalar.
    Boolean(bool),
    /// An integer scalar.
    Int(i64),
    /// A float scalar, as its shortest decimal text.
    Number(String),
    /// A string scalar.
    Text(String),
    /// A table: the positional part in order, then the named fields.
    Table(Vec<TableValue>, Vec<(String, TableValue)>),
}

/// The rlua value type, held opaquely while the conversion helpers below
/// walk the interpreter's output.
#[verifier::external_type_specification]
#[verifier::external_body]
pub struct ExLuaValue<'a>(rlua::Value<'a>);

/// The rlua table type, held opaquely while the conversion helpers below
/// walk the interpreter's output.
#[verifier::external_type_specification]
#[verifier::external_body]
pub struct ExLuaTable<'a>(rlua::Table<'a>);

/// How deep a converted tree may nest.  The format itself needs only a
/// handful of levels (mesh list, mesh, vertex or face list, entry, UV
/// list); the bound exists so that the conversion's recursion is finite
/// on arbitrary evaluator output, cyclic tables included.
pub const TABLE_DEPTH_LIMIT: u32 = 16;

/// Relies on rlua's `Table::sequence_values` and `Table::pairs`: the
/// positional part of a table in order, and its string-keyed fields in
/// whatever order the interpreter walks them.  `None` once the remaining
/// depth is spent, so the recursion over the tree is bounded.
#[verifier::external_body]
fn table_to_value(t: rlua::Table<'_>, depth: u32) -> Option<TableValue> {
    if depth == 0 { return None; }
    let mut seq: Vec<TableValue> = Vec::new();
    let mut named: Vec<(String, TableValue)> = Vec::new();
    for v in t.clone().sequence_values::<rlua::Value>() {
        match v { Ok(item) => seq.push(lua_to_value(item, depth - 1)?), Err(_) => break }
    }
    for p in t.pairs::<rlua::Value, rlua::Value>() {
        if let Ok((rlua::Value::String(k), v)) = p {
            named.push((k.to_str().unwrap_or_default().to_string(), lua_to_value(v, depth - 1)?));
        }
    }
    Some(TableValue::Table(seq, named))
}

/// Relies on rlua's value enum: tells the scalar variants apart; float
/// scalars become their decimal text, values of no scalar kind become
/// `Nil`.  `None` when a nested table lies below the depth bound.
#[verifier::external_body]
fn lua_to_value(v: rlua::Value<'_>, depth: u32) -> Option<TableValue> {
    match v {
        rlua::Value::Boolean(b) => Some(TableValue::Boolean(b)),
        rlua::Value::Integer(i) => Some(TableValue::Int(i)),
        rlua::Value::Number(n) => Some(TableValue::Number(format!("{}", n))),
        rlua::Value::String(s) => match s.to_str() {
            Ok(t) => Some(TableValue::Text(t.to_string())),
            Err(_) => Some(TableValue::Nil),
        },
        rlua::Value::Table(t) => table_to_value(t, depth),
        _ => Some(TableValue::Nil),
    }
}

/// Relies on rlua (the embedded Lua interpreter): evaluates a table-literal
/// string to a value tree, or hands back the interpreter's error message.
/// Nothing is promised of the result: the order of a table's named fields
/// depends on the interpreter's internal hashing, so the decoders are
/// verified for every tree this may return.  A tree nesting deeper than
/// [`TABLE_DEPTH_LIMIT`] is an error, so the conversion of the result is
/// always finite, cyclic tables included; the evaluation itself, like any
/// call into the interpreter, runs as long as the chunk does.
#[verifier::external_body]
pub(crate) fn eval_literal(src: &str) -> Result<TableValue, String> {
    let lua = rlua::Lua::new();
    let evaluated = lua.load(src).eval::<rlua::Value>();
    let converted = match evaluated {
        Ok(v) => match lua_to_value(v, TABLE_DEPTH_LIMIT) {
            Some(tree) => Ok(tree),
            None => Err("table literal nests too deeply".to_string()),
        },
        Err(e) => Err(format!("{}", e)),
    };
    converted
}

/// The value of the first named field with the given key, if any.
pub open spec fn lookup(named: Seq<(String, TableValue)>, key: Seq<char>) -> Option<TableValue>
    decreases named.len(),
{
    if named.len() == 0 {
        None
    } else if named[0].0@ == key {
        Some(named[0].1)
    } else {
        lookup(named.skip(1), key)
    }
}

/// Finds the first named field with the given key, exactly as [`lookup`]
/// describes.
pub fn find_named<'a>(named: &'a Vec<(String, TableValue)>, key: &str) -> (r: Option<
    &'a TableValue,
>)
    ensures
        match r {
            Some(v) => lookup(named@, key@) == Some(*v),
            None => lookup(named@, key@) is None,
        },
{
    let keystr = String::from_str(key);
    let mut i: usize = 0;
    proof {
        assert(named@.skip(0) =~= named@);
    }
    while i < named.len()
        invariant
            0 <= i <= named@.len(),
            keystr@ == key@,
            lookup(named@.skip(i as int), key@) == lookup(named@, key@),
        decreases named@.len() - i,
    {
        proof {
            assert(named@.skip(i as int)[0] == named@[i as int]);
            assert(named@.skip(i as int).skip(1) =~= named@.skip(i + 1));
        }
        if named[i].0 == keystr {
            return Some(&named[i].1);
        }
        i = i + 1;
    }
    proof {
        assert(named@.skip(named@.len() as int).len() == 0);
    }
    None
}

/// The raw coordinate value of a scalar node: an in-range integer scalar
/// scaled to ten-thousandths, or a float scalar whose decimal text parses.
pub open spec fn spec_scalar_coord(t: TableValue) -> Option<int> {
    match t {
        TableValue::Int(i) => if -COORD_MAX_WHOLE <= i <= COORD_MAX_WHOLE {
            Some(i * 10000)
        } else {
            None
        },
        TableValue::Number(s) => spec_parse_coord(s@),
        _ => None,
    }
}

/// The 1-based index value of a scalar node: an integer scalar, or a float
/// scalar of whole value.
pub open spec fn spec_scalar_index(t: TableValue) -> Option<int> {
    match t {
        TableValue::Int(i) => Some(i as int),
        TableValue::Number(s) => match spec_parse_coord(s@) {
            Some(v) => if v % 10000 == 0 {
                Some(v / 10000)
            } else {
                None
            },
            None => None,
        },
        _ => None,
    }
}

/// Reads a scalar node as a raw coordinate, exactly as
/// [`spec_scalar_coord`] describes.
pub fn scalar_coord(t: &TableValue) -> (r: Option<i64>)
    ensures
        match r {
            Some(x) => spec_scalar_coord(*t) == Some(x as int),
            None => spec_scalar_coord(*t) is None,
        },
{
    match t {
        TableValue::Int(i) => {
            if -COORD_MAX_WHOLE <= *i && *i <= COORD_MAX_WHOLE {
                Some(*i * 10000)
            } else {
                None
            }
        },
        TableValue::Number(s) => {
            let cs = str_to_chars(s.as_str());
            parse_coord(&cs)
        },
        _ => None,
    }
}

/// Reads a scalar node as a 1-based index, exactly as
/// [`spec_scalar_index`] describes.
pub fn scalar_index(t: &TableValue) -> (r: Option<i64>)
    ensures
        match r {
            Some(x) => spec_scalar_index(*t) == Some(x as int),
            None => spec_scalar_index(*t) is None,
        },
{
    match t {
        TableValue::Int(i) => Some(*i),
        TableValue::Number(s) => {
            let cs = str_to_chars(s.as_str());
            match parse_coord(&cs) {
                Some(v) => {
                    if v % 10000 == 0 {
                        Some(v / 10000)
                    } else {
                        None
                    }
                },
                None => None,
            }
        },
        _ => None,
    }
}

} // verus!
