//! Edge defaults: a literal whose text may mention the message of the error it replaces.
use vstd::prelude::*;

use crate::packet::{JsonScalar, ScalarModel};
use crate::text::copy_string;

verus! {

/// One piece of a default's text.
#[derive(Debug, Clone, PartialEq, Eq)]
pub enum TemplatePiece {
    /// Literal text.
    Text(String),
    /// The message of the error being replaced.
    ErrorMessage,
}

/// The mathematical value of a [`TemplatePiece`].
pub enum PieceModel {
    Text(Seq<char>),
    ErrorMessage,
}

/// The literal an edge delivers in place of an upstream error.
#[derive(Debug, Clone, PartialEq, Eq)]
pub enum DefaultValue {
    Null,
    Bool(bool),
    Int(i64),
    /// Text assembled from its pieces.
    Text(Vec<TemplatePiece>),
}

/// The mathematical value of a [`DefaultValue`].
pub enum DefaultModel {
    Null,
    Bool(bool),
    Int(i64),
    Text(Seq<PieceModel>),
}

impl View for TemplatePiece {
    type V = PieceModel;

    open spec fn view(&self) -> PieceModel {
        match self {
            TemplatePiece::Text(s) => PieceModel::Text(s@),
            TemplatePiece::ErrorMessage => PieceModel::ErrorMessage,
        }
    }
}

impl View for DefaultValue {
    type V = DefaultModel;

    open spec fn view(&self) -> DefaultModel {
        match self {
            DefaultValue::Null => DefaultModel::Null,
            DefaultValue::Bool(b) => DefaultModel::Bool(*b),
            DefaultValue::Int(i) => DefaultModel::Int(*i),
            DefaultValue::Text(v) => DefaultModel::Text(v@.map_values(|p: TemplatePiece| p@)),
        }
    }
}

/// The text of one piece, with `message` standing for the error.
pub open spec fn render_piece(p: PieceModel, message: Seq<char>) -> Seq<char> {
    match p {
        PieceModel::Text(s) => s,
        PieceModel::ErrorMessage => message,
    }
}

/// The text of a sequence of pieces, with `message` standing for the error.
pub open spec fn render(pieces: Seq<PieceModel>, message: Seq<char>) -> Seq<char>
    decreases pieces.len(),
{
    if pieces.len() == 0 {
        Seq::empty()
    } else {
        render(pieces.drop_last(), message) + render_piece(pieces.last(), message)
    }
}

/// The scalar that default `d` yields in place of an error with message `message`.
pub open spec fn eval_default(d: DefaultModel, message: Seq<char>) -> ScalarModel {
    match d {
        DefaultModel::Null => ScalarModel::Null,
        DefaultModel::Bool(b) => ScalarModel::Bool(b),
        DefaultModel::Int(i) => ScalarModel::Int(i),
        DefaultModel::Text(pieces) => ScalarModel::Text(render(pieces, message)),
    }
}

impl DefaultValue {
    /// A default of literal text.
    pub fn text(s: &str) -> (r: DefaultValue)
        ensures
            r@ == DefaultModel::Text(seq![PieceModel::Text(s@)]),
    {
        let mut v: Vec<TemplatePiece> = Vec::new();
        v.push(TemplatePiece::Text(s.to_owned()));
        let r = DefaultValue::Text(v);
        assert(r@->Text_0 =~= seq![PieceModel::Text(s@)]);
        r
    }

    /// The scalar this default yields in place of an error with the given message.
    pub fn evaluate(&self, message: &str) -> (r: JsonScalar)
        ensures
            r@ == eval_default(self@, message@),
    {
        match self {
            DefaultValue::Null => JsonScalar::Null,
            DefaultValue::Bool(b) => JsonScalar::Bool(*b),
            DefaultValue::Int(i) => JsonScalar::Int(*i),
            DefaultValue::Text(pieces) => {
                let mut out = String::new();
                let mut i: usize = 0;
                let ghost model = pieces@.map_values(|p: TemplatePiece| p@);
                while i < pieces.len()
                    invariant
                        i <= pieces.len(),
                        model == pieces@.map_values(|p: TemplatePiece| p@),
                        out@ == render(model.subrange(0, i as int), message@),
                    decreases pieces.len() - i,
                {
                    match &pieces[i] {
                        TemplatePiece::Text(s) => out.append(s.as_str()),
                        TemplatePiece::ErrorMessage => out.append(message),
                    }
                    assert(model.subrange(0, i + 1).drop_last() =~= model.subrange(0, i as int));
                    i = i + 1;
                }
                assert(model.subrange(0, pieces.len() as int) =~= model);
                JsonScalar::Text(out)
            },
        }
    }

    /// A copy with the same value.
    pub fn duplicate(&self) -> (r: DefaultValue)
        ensures
            r@ == self@,
    {
        match self {
            DefaultValue::Null => DefaultValue::Null,
            DefaultValue::Bool(b) => DefaultValue::Bool(*b),
            DefaultValue::Int(i) => DefaultValue::Int(*i),
            DefaultValue::Text(pieces) => {
                let mut v: Vec<TemplatePiece> = Vec::new();
                let mut i: usize = 0;
                while i < pieces.len()
                    invariant
                        i <= pieces.len(),
                        v@.len() == i,
                        forall|j: int| 0 <= j < i ==> v@[j]@ == pieces@[j]@,
                    decreases pieces.len() - i,
                {
                    let piece = match &pieces[i] {
                        TemplatePiece::Text(s) => TemplatePiece::Text(copy_string(s)),
                        TemplatePiece::ErrorMessage => TemplatePiece::ErrorMessage,
                    };
                    assert(piece@ == pieces@[i as int]@);
                    v.push(piece);
                    i = i + 1;
                }
                assert(v@.map_values(|p: TemplatePiece| p@) =~= pieces@.map_values(
                    |p: TemplatePiece| p@,
                ));
                DefaultValue::Text(v)
            },
        }
    }
}

} // verus!
