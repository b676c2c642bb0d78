//! The parts of a DOM node that layout reads.
use vstd::prelude::*;

verus! {

/// The kinds of element that the layout knows.
#[derive(Debug, Clone, Copy, PartialEq, Eq, Structural)]
pub enum ElementKind {
    Html,
    Head,
    Style,
    Script,
    Body,
    P,
    H1,
    H2,
    A,
}

/// The tag name of an element of kind `k`.
pub open spec fn element_kind_name(k: ElementKind) -> Seq<char> {
    match k {
        ElementKind::Html => "html"@,
        ElementKind::Head => "head"@,
        ElementKind::Style => "style"@,
        ElementKind::Script => "script"@,
        ElementKind::Body => "body"@,
        ElementKind::P => "p"@,
        ElementKind::H1 => "h1"@,
        ElementKind::H2 => "h2"@,
        ElementKind::A => "a"@,
    }
}

impl ElementKind {
    /// The tag name of this kind of element.
    pub fn name(&self) -> (s: String)
        ensures
            s@ == element_kind_name(*self),
    {
        broadcast use vstd::string::group_string_axioms;

        match self {
            ElementKind::Html => "html".to_string(),
            ElementKind::Head => "head".to_string(),
            ElementKind::Style => "style".to_string(),
            ElementKind::Script => "script".to_string(),
            ElementKind::Body => "body".to_string(),
            ElementKind::P => "p".to_string(),
            ElementKind::H1 => "h1".to_string(),
            ElementKind::H2 => "h2".to_string(),
            ElementKind::A => "a".to_string(),
        }
    }
}

/// An attribute of an element: its name and its value.
#[derive(Debug, Clone, PartialEq)]
pub struct Attribute {
    pub name: String,
    pub value: String,
}

/// An element: its kind and its attributes, in source order.
#[derive(Debug, Clone, PartialEq)]
pub struct Element {
    pub kind: ElementKind,
    pub attributes: Vec<Attribute>,
}

/// What a DOM node is, as far as layout reads it.
#[derive(Debug, Clone, PartialEq)]
pub enum NodeKind {
    Document,
    Element(Element),
    Text(String),
}

/// The value of a `NodeKind`; an element's attributes as (name, value) pairs.
pub enum NodeView {
    Document,
    Element(ElementKind, Seq<(Seq<char>, Seq<char>)>),
    Text(Seq<char>),
}

pub open spec fn attributes_view(v: Seq<Attribute>) -> Seq<(Seq<char>, Seq<char>)> {
    v.map_values(|a: Attribute| (a.name@, a.value@))
}

impl View for NodeKind {
    type V = NodeView;

    open spec fn view(&self) -> NodeView {
        match self {
            NodeKind::Document => NodeView::Document,
            NodeKind::Element(e) => NodeView::Element(e.kind, attributes_view(e.attributes@)),
            NodeKind::Text(t) => NodeView::Text(t@),
        }
    }
}

/// A copy of `attrs` with the same names and values.
fn copy_attributes(attrs: &Vec<Attribute>) -> (r: Vec<Attribute>)
    ensures
        attributes_view(r@) == attributes_view(attrs@),
{
    let mut r: Vec<Attribute> = Vec::new();
    let mut i: usize = 0;
    while i < attrs.len()
        invariant
            i <= attrs.len(),
            r@.len() == i,
            forall|j: int|
                0 <= j < i ==> #[trigger] r@[j].name@ == attrs@[j].name@ && r@[j].value@
                    == attrs@[j].value@,
        decreases attrs.len() - i,
    {
        let a = Attribute { name: attrs[i].name.clone(), value: attrs[i].value.clone() };
        r.push(a);
        i = i + 1;
    }
    assert(attributes_view(r@) =~= attributes_view(attrs@));
    r
}

impl NodeKind {
    /// A copy of this node kind with the same view.
    pub fn copy(&self) -> (r: NodeKind)
        ensures
            r@ == self@,
    {
        match self {
            NodeKind::Document => NodeKind::Document,
            NodeKind::Element(e) => NodeKind::Element(
                Element { kind: e.kind, attributes: copy_attributes(&e.attributes) },
            ),
            NodeKind::Text(t) => NodeKind::Text(t.clone()),
        }
    }
}

} // verus!
