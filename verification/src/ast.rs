//! The syntax tree of an SRNG document.
use vstd::prelude::*;
use crate::diagnostic::Diagnostic;

verus! {

#[derive(Debug, Clone)]
pub struct Property {
    pub name: String,
    pub value: String,
}

pub struct PropertyView {
    pub name: Seq<char>,
    pub value: Seq<char>,
}

impl View for Property {
    type V = PropertyView;

    open spec fn view(&self) -> PropertyView {
        PropertyView { name: self.name@, value: self.value@ }
    }
}

pub open spec fn properties_view(ps: Seq<Property>) -> Seq<PropertyView> {
    ps.map_values(|p: Property| p@)
}

/// A unit declaration. The scale is kept as the text with which a
/// floating-point value of the written number displays.
#[derive(Debug, Clone)]
pub struct UnitDecl {
    pub name: String,
    pub scale: String,
    pub base: String,
}

#[derive(Debug, Clone)]
pub struct NodeDecl {
    pub kind: String,
    pub id: String,
    pub properties: Vec<Property>,
}

#[derive(Debug, Clone)]
pub struct RelationDecl {
    pub from: String,
    pub to: String,
    pub properties: Vec<Property>,
}

#[derive(Debug, Clone)]
pub struct ReferenceDecl {
    pub id: String,
    pub target: String,
    pub properties: Vec<Property>,
}

#[derive(Debug, Clone)]
pub struct AnimationDecl {
    pub id: String,
    pub properties: Vec<Property>,
}

#[derive(Debug, Clone)]
pub enum Declaration {
    Unit(UnitDecl),
    Node(NodeDecl),
    Relation(RelationDecl),
    Reference(ReferenceDecl),
    Animation(AnimationDecl),
}

/// The mathematical content of a declaration.
pub enum DeclView {
    Unit { name: Seq<char>, scale: Seq<char>, base: Seq<char> },
    Node { kind: Seq<char>, id: Seq<char>, properties: Seq<PropertyView> },
    Relation { from: Seq<char>, to: Seq<char>, properties: Seq<PropertyView> },
    Reference { id: Seq<char>, target: Seq<char>, properties: Seq<PropertyView> },
    Animation { id: Seq<char>, properties: Seq<PropertyView> },
}

impl View for Declaration {
    type V = DeclView;

    open spec fn view(&self) -> DeclView {
        match self {
            Declaration::Unit(u) => DeclView::Unit { name: u.name@, scale: u.scale@, base: u.base@ },
            Declaration::Node(n) => DeclView::Node {
                kind: n.kind@,
                id: n.id@,
                properties: properties_view(n.properties@),
            },
            Declaration::Relation(r) => DeclView::Relation {
                from: r.from@,
                to: r.to@,
                properties: properties_view(r.properties@),
            },
            Declaration::Reference(r) => DeclView::Reference {
                id: r.id@,
                target: r.target@,
                properties: properties_view(r.properties@),
            },
            Declaration::Animation(a) => DeclView::Animation {
                id: a.id@,
                properties: properties_view(a.properties@),
            },
        }
    }
}

pub open spec fn declarations_view(ds: Seq<Declaration>) -> Seq<DeclView> {
    ds.map_values(|d: Declaration| d@)
}

#[derive(Debug, Clone)]
pub struct Document {
    pub version: String,
    pub file_id: Option<String>,
    pub declarations: Vec<Declaration>,
    pub diagnostics: Vec<Diagnostic>,
}

} // verus!
