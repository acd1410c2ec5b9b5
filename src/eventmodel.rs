//! The expression model: what the parser produces and ingestion consumes.

use vstd::prelude::*;

verus! {

/// A named text value, `name: data`.
#[derive(Debug, PartialEq, Eq, Clone)]
pub struct TextField {
    pub name: String,
    pub data: String,
}

/// A named series of text values.
#[derive(Debug, PartialEq, Eq, Clone)]
pub struct TextSeries {
    pub name: String,
    pub data: Vec<String>,
}

#[derive(Debug, PartialEq, Eq, Clone)]
pub enum Field {
    Text(TextField),
}

/// The identifier of an expression.
#[derive(Debug, PartialEq, Eq, Clone)]
pub struct ExpressionId(pub String);

/// The keywords of the notation.
#[derive(Debug, PartialEq, Eq, Clone, Copy, Structural)]
pub enum ExpressionType {
    Form,
    Job,
    Command,
    Event,
    View,
    Flow,
}

#[derive(Debug, PartialEq, Eq, Clone)]
pub enum Body {
    /// `name: value` pairs, in order.
    FieldBody(Vec<Field>),
    /// Raw lines, kept as written after their leading whitespace.
    TableBody(Vec<String>),
    /// A reference to an earlier expression.
    UseBody(ExpressionId),
}

#[derive(Debug, PartialEq, Eq, Clone)]
pub enum Expression {
    Form(ExpressionId, Body),
    Job(ExpressionId, Body),
    Command(ExpressionId, Body),
    Event(ExpressionId, Body),
    View(ExpressionId, Body),
    /// A chain of connections `ids[0] => ids[1] => ...`; its own id is generated.
    Flow(ExpressionId, Vec<ExpressionId>),
}

/// A parsed document: its expressions in source order.
#[derive(Debug, PartialEq, Eq, Clone)]
pub struct EventModel {
    pub expressions: Vec<Expression>,
}

/// A field as a pair of name and value.
pub type FieldModel = (Seq<char>, Seq<char>);

pub enum BodyModel {
    Fields(Seq<FieldModel>),
    Table(Seq<Seq<char>>),
    Use(Seq<char>),
}

pub enum ExpressionModel {
    Form(Seq<char>, BodyModel),
    Job(Seq<char>, BodyModel),
    Command(Seq<char>, BodyModel),
    Event(Seq<char>, BodyModel),
    View(Seq<char>, BodyModel),
    Flow(Seq<char>, Seq<Seq<char>>),
}

impl View for TextField {
    type V = FieldModel;

    open spec fn view(&self) -> FieldModel {
        (self.name@, self.data@)
    }
}

impl View for Field {
    type V = FieldModel;

    open spec fn view(&self) -> FieldModel {
        match self {
            Field::Text(t) => t@,
        }
    }
}

impl View for ExpressionId {
    type V = Seq<char>;

    open spec fn view(&self) -> Seq<char> {
        self.0@
    }
}

pub open spec fn fields_view(v: Seq<Field>) -> Seq<FieldModel> {
    Seq::new(v.len(), |i: int| v[i]@)
}

pub open spec fn ids_view(v: Seq<ExpressionId>) -> Seq<Seq<char>> {
    Seq::new(v.len(), |i: int| v[i]@)
}

pub open spec fn strings_view(v: Seq<String>) -> Seq<Seq<char>> {
    Seq::new(v.len(), |i: int| v[i]@)
}

impl View for Body {
    type V = BodyModel;

    open spec fn view(&self) -> BodyModel {
        match self {
            Body::FieldBody(f) => BodyModel::Fields(fields_view(f@)),
            Body::TableBody(t) => BodyModel::Table(strings_view(t@)),
            Body::UseBody(id) => BodyModel::Use(id@),
        }
    }
}

impl View for Expression {
    type V = ExpressionModel;

    open spec fn view(&self) -> ExpressionModel {
        match self {
            Expression::Form(id, b) => ExpressionModel::Form(id@, b@),
            Expression::Job(id, b) => ExpressionModel::Job(id@, b@),
            Expression::Command(id, b) => ExpressionModel::Command(id@, b@),
            Expression::Event(id, b) => ExpressionModel::Event(id@, b@),
            Expression::View(id, b) => ExpressionModel::View(id@, b@),
            Expression::Flow(id, ids) => ExpressionModel::Flow(id@, ids_view(ids@)),
        }
    }
}

pub open spec fn expressions_view(v: Seq<Expression>) -> Seq<ExpressionModel> {
    Seq::new(v.len(), |i: int| v[i]@)
}

impl View for EventModel {
    type V = Seq<ExpressionModel>;

    open spec fn view(&self) -> Seq<ExpressionModel> {
        expressions_view(self.expressions@)
    }
}

} // verus!
