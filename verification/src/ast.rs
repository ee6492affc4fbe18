//! The expression model the transform works on.
//!
//! The variants the transform inspects (calls, object literals, string
//! literals, identifiers) are explicit; every other node kind of the host
//! language is `Opaque`, carrying a host-side tag and its expression
//! children in source order, so that a traversal still reaches calls nested
//! inside it and an untouched node can be rebuilt by the host.

use vstd::prelude::*;

verus! {

broadcast use vstd::std_specs::vec::group_vec_axioms;

/// A property key in an object literal: a bare identifier or a quoted
/// string. Both resolve to the same plain string during extraction; the
/// form is kept so that untouched nodes round-trip.
#[derive(Debug, PartialEq)]
pub enum PropKey {
    Ident(String),
    Str(String),
}

/// A property of an object literal. Anything but a simple key-value pair
/// with a plain key (spreads, accessors, methods, computed keys) is
/// `Opaque`.
#[derive(Debug, PartialEq)]
pub enum Prop {
    KeyValue(PropKey, Expr),
    Opaque(u64, Vec<Expr>),
}

/// A call argument: an expression with an optional spread marker.
#[derive(Debug, PartialEq)]
pub struct Arg {
    pub spread: bool,
    pub expr: Expr,
}

/// An expression node.
#[derive(Debug, PartialEq)]
pub enum Expr {
    /// A literal string.
    Str(String),
    /// A plain (non-computed, non-member) identifier.
    Ident(String),
    /// An object literal.
    Object(Vec<Prop>),
    /// A call: callee expression and argument list.
    Call(Box<Expr>, Vec<Arg>),
    /// Any other expression kind, opaque to the transform.
    Opaque(u64, Vec<Expr>),
}

/// Mathematical image of `PropKey`.
pub enum PropKeyV {
    Ident(Seq<char>),
    Str(Seq<char>),
}

/// Mathematical image of `Prop`.
pub enum PropV {
    KeyValue(PropKeyV, ExprV),
    Opaque(u64, Seq<ExprV>),
}

/// Mathematical image of `Arg`.
pub struct ArgV {
    pub spread: bool,
    pub expr: ExprV,
}

/// Mathematical image of `Expr`.
pub enum ExprV {
    Str(Seq<char>),
    Ident(Seq<char>),
    Object(Seq<PropV>),
    Call(Box<ExprV>, Seq<ArgV>),
    Opaque(u64, Seq<ExprV>),
}

impl View for PropKey {
    type V = PropKeyV;

    open spec fn view(&self) -> PropKeyV {
        match self {
            PropKey::Ident(s) => PropKeyV::Ident(s@),
            PropKey::Str(s) => PropKeyV::Str(s@),
        }
    }
}

impl View for Prop {
    type V = PropV;

    open spec fn view(&self) -> PropV
        decreases self,
    {
        match self {
            Prop::KeyValue(k, v) => PropV::KeyValue(k@, v@),
            Prop::Opaque(tag, children) => PropV::Opaque(*tag, view_exprs(children@)),
        }
    }
}

impl View for Arg {
    type V = ArgV;

    open spec fn view(&self) -> ArgV
        decreases self,
    {
        ArgV { spread: self.spread, expr: self.expr@ }
    }
}

impl View for Expr {
    type V = ExprV;

    open spec fn view(&self) -> ExprV
        decreases self,
    {
        match self {
            Expr::Str(s) => ExprV::Str(s@),
            Expr::Ident(s) => ExprV::Ident(s@),
            Expr::Object(props) => ExprV::Object(view_props(props@)),
            Expr::Call(callee, args) => ExprV::Call(Box::new((&**callee)@), view_args(args@)),
            Expr::Opaque(tag, children) => ExprV::Opaque(*tag, view_exprs(children@)),
        }
    }
}

/// The views of a sequence of expressions, elementwise.
pub open spec fn view_exprs(v: Seq<Expr>) -> Seq<ExprV>
    decreases v,
{
    if v.len() == 0 {
        Seq::empty()
    } else {
        view_exprs(v.drop_last()).push(v.last()@)
    }
}

/// The views of a sequence of properties, elementwise.
pub open spec fn view_props(v: Seq<Prop>) -> Seq<PropV>
    decreases v,
{
    if v.len() == 0 {
        Seq::empty()
    } else {
        view_props(v.drop_last()).push(v.last()@)
    }
}

/// The views of a sequence of arguments, elementwise.
pub open spec fn view_args(v: Seq<Arg>) -> Seq<ArgV>
    decreases v,
{
    if v.len() == 0 {
        Seq::empty()
    } else {
        view_args(v.drop_last()).push(v.last()@)
    }
}

/// Elementwise reading of `view_exprs`.
pub proof fn lemma_view_exprs(v: Seq<Expr>)
    ensures
        view_exprs(v).len() == v.len(),
        forall|i: int| 0 <= i < v.len() ==> view_exprs(v)[i] == #[trigger] v[i]@,
    decreases v.len(),
{
    if v.len() > 0 {
        lemma_view_exprs(v.drop_last());
        assert(view_exprs(v) == view_exprs(v.drop_last()).push(v.last()@));
        assert forall|i: int| 0 <= i < v.len() implies view_exprs(v)[i] == #[trigger] v[i]@ by {
            if i < v.len() - 1 {
                assert(v.drop_last()[i] == v[i]);
                assert(view_exprs(v)[i] == view_exprs(v.drop_last())[i]);
            } else {
                assert(v.last() == v[i]);
            }
        }
    }
}

/// Elementwise reading of `view_props`.
pub proof fn lemma_view_props(v: Seq<Prop>)
    ensures
        view_props(v).len() == v.len(),
        forall|i: int| 0 <= i < v.len() ==> view_props(v)[i] == #[trigger] v[i]@,
    decreases v.len(),
{
    if v.len() > 0 {
        lemma_view_props(v.drop_last());
        assert(view_props(v) == view_props(v.drop_last()).push(v.last()@));
        assert forall|i: int| 0 <= i < v.len() implies view_props(v)[i] == #[trigger] v[i]@ by {
            if i < v.len() - 1 {
                assert(v.drop_last()[i] == v[i]);
                assert(view_props(v)[i] == view_props(v.drop_last())[i]);
            } else {
                assert(v.last() == v[i]);
            }
        }
    }
}

/// Elementwise reading of `view_args`.
pub proof fn lemma_view_args(v: Seq<Arg>)
    ensures
        view_args(v).len() == v.len(),
        forall|i: int| 0 <= i < v.len() ==> view_args(v)[i] == #[trigger] v[i]@,
    decreases v.len(),
{
    if v.len() > 0 {
        lemma_view_args(v.drop_last());
        assert(view_args(v) == view_args(v.drop_last()).push(v.last()@));
        assert forall|i: int| 0 <= i < v.len() implies view_args(v)[i] == #[trigger] v[i]@ by {
            if i < v.len() - 1 {
                assert(v.drop_last()[i] == v[i]);
                assert(view_args(v)[i] == view_args(v.drop_last())[i]);
            } else {
                assert(v.last() == v[i]);
            }
        }
    }
}

} // verus!
