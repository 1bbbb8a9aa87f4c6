//! Errors of loading a tree from XML.

use vstd::prelude::*;

verus! {

/// What can go wrong while a tree is loaded from XML.
#[derive(Debug)]
pub enum ParseError {
    /// `(port_name, node_name, port_list)`
    InvalidPort(String, String, Vec<String>),
    MissingRequiredPort { node: String, port: String },
    /// An attribute could not be read.
    AttrError(String),
    /// The XML could not be read.
    XMLError(String),
    MissingRoot,
    ExpectedRoot(String),
    UnexpectedEof,
    Utf8Error(String),
    UnknownNode(String),
    InternalError(String),
    MissingAttribute(String),
    UnknownTree(String),
    NodeTypeMismatch(String),
    NoMainTree,
    /// A value could not be read as a boolean.
    ParseStringError(String),
    ViolateNodeConstraint(String),
    /// A port value that should be an expression could not be compiled.
    InvalidPortExpression(String),
    /// A variable of a port expression names no type.
    PortExpressionMissingType(String),
    /// A variable of a port expression names a type that is not `int`,
    /// `float`, `str` or `bool`.
    PortExpressionInvalidType { ident: String, value_type: String },
}

} // verus!
