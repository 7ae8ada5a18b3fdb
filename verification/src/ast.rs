//! Syntax nodes and their translation into values of the code-generation
//! backend.
//!
//! The backend is not part of this crate. A [`NativeValue`] says which value
//! the backend is to construct; whoever drives the backend constructs it.

use vstd::prelude::*;
use crate::numeral::Numeral;

verus! {

/// A node of the syntax tree. Numeric literals are the one kind so far.
#[derive(Debug, PartialEq)]
pub enum AstNode {
    /// A numeric literal.
    Number(Numeral),
}

/// What an [`AstNode`] stands for.
pub enum AstNodeView {
    Number(Seq<char>),
}

/// A value of the backend, by the way it is constructed.
#[derive(Debug, PartialEq)]
pub enum NativeValue {
    /// The floating-point constant of double precision that the numeral
    /// denotes.
    Real(Numeral),
}

/// What a [`NativeValue`] stands for.
pub enum NativeValueView {
    Real(Seq<char>),
}

impl View for AstNode {
    type V = AstNodeView;

    open spec fn view(&self) -> AstNodeView {
        match self {
            AstNode::Number(numeral) => AstNodeView::Number(numeral@),
        }
    }
}

impl View for NativeValue {
    type V = NativeValueView;

    open spec fn view(&self) -> NativeValueView {
        match self {
            NativeValue::Real(numeral) => NativeValueView::Real(numeral@),
        }
    }
}

/// The native value that a node translates to: a numeric literal becomes
/// the floating-point constant of the same numeral.
pub open spec fn translation(node: AstNodeView) -> NativeValueView {
    match node {
        AstNodeView::Number(numeral) => NativeValueView::Real(numeral),
    }
}

impl AstNode {
    /// Translates the node into the native value that stands for it. Every
    /// node has one.
    pub fn codegen(&self) -> (value: NativeValue)
        ensures
            value@ == translation(self@),
    {
        match self {
            AstNode::Number(numeral) => NativeValue::Real(numeral.clone()),
        }
    }
}

} // verus!
