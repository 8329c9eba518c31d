//! The abstract syntax of ShEx schemas, as far as the converters read it.
use vstd::prelude::*;

use crate::prefixmap::{IriRef, PrefixMap};

verus! {

/// The label of a shape expression.
#[derive(Debug)]
pub enum ShapeExprLabel {
    IriRef { value: IriRef },
    BNode { value: String },
    Start,
}

/// A node constraint; the converters read its datatype.
#[derive(Debug)]
pub struct NodeConstraint {
    pub datatype: Option<IriRef>,
}

impl NodeConstraint {
    pub fn datatype(&self) -> (res: Option<IriRef>)
        ensures
            res == self.datatype,
    {
        match &self.datatype {
            Some(d) => Some(
                match d {
                    IriRef::Iri(i) => IriRef::Iri(i.clone()),
                    IriRef::Prefixed { prefix, local } => IriRef::Prefixed {
                        prefix: prefix.clone(),
                        local: local.clone(),
                    },
                },
            ),
            None => None,
        }
    }
}

/// A shape, with its triple expression if it has one.
#[derive(Debug)]
pub struct Shape {
    pub expression: Option<TripleExprWrapper>,
}

/// A triple expression as it stands in a shape.
#[derive(Debug)]
pub struct TripleExprWrapper {
    pub te: TripleExpr,
}

/// A triple expression.
#[derive(Debug)]
pub enum TripleExpr {
    EachOf { expressions: Vec<TripleExprWrapper>, min: Option<i32>, max: Option<i32> },
    OneOf { expressions: Vec<TripleExprWrapper>, min: Option<i32>, max: Option<i32> },
    TripleConstraint {
        negated: Option<bool>,
        inverse: Option<bool>,
        predicate: IriRef,
        value_expr: Option<Box<ShapeExpr>>,
        min: Option<i32>,
        max: Option<i32>,
    },
    TripleExprRef(String),
}

/// A shape expression.
#[derive(Debug)]
pub enum ShapeExpr {
    ShapeOr { shape_exprs: Vec<ShapeExpr> },
    ShapeAnd { shape_exprs: Vec<ShapeExpr> },
    ShapeNot { shape_expr: Box<ShapeExpr> },
    NodeConstraint(NodeConstraint),
    Shape(Shape),
    External,
    Ref(ShapeExprLabel),
}

/// A declaration of a shape expression with its label.
#[derive(Debug)]
pub struct ShapeDecl {
    pub id: ShapeExprLabel,
    pub shape_expr: ShapeExpr,
}

/// A ShEx schema: its prefix map and its shape declarations.
#[derive(Debug)]
pub struct Schema {
    pub prefixmap: Option<PrefixMap>,
    pub shapes: Option<Vec<ShapeDecl>>,
}

/// The error of reading a shape reference from a string.
#[derive(Debug, Clone)]
pub struct FromStrRefError;

} // verus!
